//! Thinking-tag healing: leaked `<think>` markup goes to the reasoning channel.
use crate::heal::markers::{
    differs, find_marker, first_marker, lemma_first_marker, lemma_longest_growing,
    lemma_marker_kept, lemma_withheld_enough, longest_prefix_suffix, texts, well_marked, withheld,
};
use crate::json::{Json, JsonV};
use crate::text::{find, find_from, slice_chars, slice_string, to_chars};
use crate::wire::chat::{ChatMessage, ChatMessageV};
use vstd::prelude::*;

verus! {

/// The opening markers, or with `close` the closing ones.
pub open spec fn tags(close: bool) -> Seq<Seq<char>> {
    if close {
        seq!["</thinking>"@, "</think>"@, "◁/think▷"@]
    } else {
        seq!["<thinking>"@, "<think>"@, "◁think▷"@]
    }
}

/// The text of the two channels.
pub struct SplitV {
    pub reasoning: Seq<char>,
    pub text: Seq<char>,
}

impl SplitV {
    pub open spec fn empty() -> SplitV {
        SplitV { reasoning: Seq::empty(), text: Seq::empty() }
    }

    /// Channel by channel, this text followed by `next`.
    pub open spec fn then_split(self, next: SplitV) -> SplitV {
        SplitV { reasoning: self.reasoning + next.reasoning, text: self.text + next.text }
    }
}

/// `chunk` on the reasoning channel inside a block, on the text channel outside.
pub open spec fn on_channel(in_think: bool, chunk: Seq<char>) -> SplitV {
    if in_think {
        SplitV { reasoning: chunk, text: Seq::empty() }
    } else {
        SplitV { reasoning: Seq::empty(), text: chunk }
    }
}

/// What becomes of a text: what is emitted, what is withheld, whether its end
/// lies inside a block, and whether a block was opened.
pub struct Scan {
    pub out: SplitV,
    pub pending: Seq<char>,
    pub in_think: bool,
    pub opened: bool,
}

/// Splits `p`, which starts inside a block where `in_think`, at its markers.
pub open spec fn scan(p: Seq<char>, in_think: bool) -> Scan
    decreases p.len(),
{
    match first_marker(p, 0, tags(in_think)) {
        Some((at, n)) => {
            proof {
                lemma_first_marker(p, 0, tags(in_think));
            }
            let rest = scan(p.skip(at + n), !in_think);
            Scan {
                out: on_channel(in_think, p.take(at)).then_split(rest.out),
                pending: rest.pending,
                in_think: rest.in_think,
                opened: rest.opened || !in_think,
            }
        },
        None => {
            let keep = p.len() - withheld(p, tags(in_think));
            Scan {
                out: on_channel(in_think, p.take(keep)),
                pending: p.skip(keep),
                in_think: in_think,
                opened: false,
            }
        },
    }
}

pub proof fn lemma_tags_well_marked(close: bool)
    ensures
        well_marked(tags(close)),
{
    reveal_strlit("</thinking>");
    reveal_strlit("</think>");
    reveal_strlit("◁/think▷");
    reveal_strlit("<thinking>");
    reveal_strlit("<think>");
    reveal_strlit("◁think▷");
    let ts = tags(close);
    assert(ts.len() == 3);
    assert forall|k: int, l: int| 0 <= k < 3 && 0 <= l < 3 && k != l implies differs(
        #[trigger] ts[k],
        #[trigger] ts[l],
    ) by {
        if close {
            assert(ts[k][7] != ts[l][7] || ts[k][0] != ts[l][0]);
        } else {
            assert(ts[k][6] != ts[l][6] || ts[k][0] != ts[l][0]);
        }
    }
}

/// Whether scanning `x + b` is scanning `x`, then what was withheld followed
/// by `b`.
pub open spec fn scans_in_steps(x: Seq<char>, b: Seq<char>, in_think: bool) -> bool {
    let first = scan(x, in_think);
    let second = scan(first.pending + b, first.in_think);
    let whole = scan(x + b, in_think);
    &&& whole.out == first.out.then_split(second.out)
    &&& whole.pending == second.pending
    &&& whole.in_think == second.in_think
    &&& whole.opened == (first.opened || second.opened)
}

/// Putting texts one after the other is associative on each channel.
proof fn lemma_then_split_assoc(a: SplitV, b: SplitV, c: SplitV)
    ensures
        a.then_split(b).then_split(c) == a.then_split(b.then_split(c)),
{
    assert(a.then_split(b).then_split(c).reasoning =~= a.then_split(b.then_split(c)).reasoning);
    assert(a.then_split(b).then_split(c).text =~= a.then_split(b.then_split(c)).text);
}

proof fn lemma_on_channel_append(in_think: bool, a: Seq<char>, b: Seq<char>)
    ensures
        on_channel(in_think, a + b) == on_channel(in_think, a).then_split(on_channel(in_think, b)),
{
    let l = on_channel(in_think, a + b);
    let r = on_channel(in_think, a).then_split(on_channel(in_think, b));
    assert(l.reasoning =~= r.reasoning);
    assert(l.text =~= r.text);
}

proof fn lemma_scan_append_marker(x: Seq<char>, b: Seq<char>, in_think: bool, at: int, n: int)
    requires
        first_marker(x, 0, tags(in_think)) == Some((at, n)),
        scans_in_steps(x.skip(at + n), b, !in_think),
    ensures
        scans_in_steps(x, b, in_think),
{
    let ts = tags(in_think);
    lemma_tags_well_marked(in_think);
    lemma_first_marker(x, 0, ts);
    lemma_marker_kept(x, b, ts);
    let rest = x.skip(at + n);
    assert((x + b).skip(at + n) =~= rest + b);
    assert((x + b).take(at) =~= x.take(at));
    let r = scan(rest, !in_think);
    lemma_then_split_assoc(
        on_channel(in_think, x.take(at)),
        r.out,
        scan(r.pending + b, r.in_think).out,
    );
}

proof fn lemma_scan_append_plain(x: Seq<char>, b: Seq<char>, in_think: bool)
    requires
        first_marker(x, 0, tags(in_think)) is None,
    ensures
        scans_in_steps(x, b, in_think),
{
    let ts = tags(in_think);
    let y = x + b;
    lemma_tags_well_marked(in_think);
    lemma_withheld_enough(x, b, ts);
    lemma_longest_growing(x, ts, x.len() as int);
    let keep = x.len() - withheld(x, ts);
    let z = x.skip(keep) + b;
    assert(y.skip(keep) =~= z);
    match first_marker(z, 0, ts) {
        Some((at, n)) => {
            lemma_first_marker(z, 0, ts);
            assert(y.skip(keep + at + n) =~= z.skip(at + n));
            assert(y.take(keep + at) =~= x.take(keep) + z.take(at));
            lemma_on_channel_append(in_think, x.take(keep), z.take(at));
            lemma_then_split_assoc(
                on_channel(in_think, x.take(keep)),
                on_channel(in_think, z.take(at)),
                scan(z.skip(at + n), !in_think).out,
            );
        },
        None => {
            lemma_longest_growing(z, ts, z.len() as int);
            let kz = z.len() - withheld(z, ts);
            assert(y.take(keep + kz) =~= x.take(keep) + z.take(kz));
            assert(y.skip(keep + kz) =~= z.skip(kz));
            lemma_on_channel_append(in_think, x.take(keep), z.take(kz));
        },
    }
}

/// Scanning `x + b` is scanning `x`, then what was withheld followed by `b`.
pub proof fn lemma_scan_append(x: Seq<char>, b: Seq<char>, in_think: bool)
    ensures
        scans_in_steps(x, b, in_think),
    decreases x.len(),
{
    match first_marker(x, 0, tags(in_think)) {
        Some((at, n)) => {
            lemma_first_marker(x, 0, tags(in_think));
            lemma_scan_append(x.skip(at + n), b, !in_think);
            lemma_scan_append_marker(x, b, in_think, at, n);
        },
        None => {
            lemma_scan_append_plain(x, b, in_think);
        },
    }
}

/// The two channels a content delta can be split across.
#[derive(Debug, PartialEq, Eq)]
pub struct ThinkSplit {
    /// Text that belongs on the reasoning channel.
    pub reasoning: String,
    /// Text that belongs in the visible assistant message.
    pub text: String,
}

impl View for ThinkSplit {
    type V = SplitV;

    open spec fn view(&self) -> SplitV {
        SplitV { reasoning: self.reasoning@, text: self.text@ }
    }
}

impl Default for ThinkSplit {
    fn default() -> (r: ThinkSplit)
        ensures
            r@ == SplitV::empty(),
    {
        ThinkSplit { reasoning: String::new(), text: String::new() }
    }
}

/// The state of a [`ThinkStreamFilter`].
pub struct ThinkState {
    /// What is withheld.
    pub pending: Seq<char>,
    pub in_think: bool,
    pub fired: bool,
    pub enabled: bool,
}

impl ThinkState {
    /// The state of a fresh filter.
    pub open spec fn fresh(enabled: bool) -> ThinkState {
        ThinkState { pending: Seq::empty(), in_think: false, fired: false, enabled: enabled }
    }

    /// What a delta makes the filter emit.
    pub open spec fn emits(self, delta: Seq<char>) -> SplitV {
        if self.enabled {
            scan(self.pending + delta, self.in_think).out
        } else {
            on_channel(false, delta)
        }
    }

    /// The state after a delta.
    pub open spec fn after(self, delta: Seq<char>) -> ThinkState {
        if self.enabled {
            let s = scan(self.pending + delta, self.in_think);
            ThinkState {
                pending: s.pending,
                in_think: s.in_think,
                fired: self.fired || s.opened,
                enabled: true,
            }
        } else {
            self
        }
    }

    /// What the end of the stream makes the filter emit.
    pub open spec fn rest(self) -> SplitV {
        on_channel(self.in_think, self.pending)
    }
}

/// Feeding `a`, then `b`, emits what feeding `a + b` emits and leaves the same
/// state: where the deltas are cut does not matter.
pub proof fn chunk_boundaries_do_not_matter(st: ThinkState, a: Seq<char>, b: Seq<char>)
    ensures
        st.emits(a + b) == st.emits(a).then_split(st.after(a).emits(b)),
        st.after(a + b) == st.after(a).after(b),
{
    if st.enabled {
        assert(st.pending + (a + b) =~= (st.pending + a) + b);
        lemma_scan_append(st.pending + a, b, st.in_think);
    } else {
        lemma_on_channel_append(false, a, b);
    }
}

/// As long as no opening marker is complete, the text that is emitted followed
/// by the text that is withheld is the text that came in, and nothing is
/// reasoning.
pub proof fn text_without_markup_is_kept(st: ThinkState, delta: Seq<char>)
    requires
        st.enabled,
        !st.in_think,
        first_marker(st.pending + delta, 0, tags(false)) is None,
    ensures
        st.emits(delta).text + st.after(delta).pending == st.pending + delta,
        st.emits(delta).reasoning == Seq::<char>::empty(),
        st.after(delta).fired == st.fired,
        !st.after(delta).in_think,
{
    let p = st.pending + delta;
    lemma_longest_growing(p, tags(false), p.len() as int);
    let keep = p.len() - withheld(p, tags(false));
    assert(p.take(keep) + p.skip(keep) =~= p);
}

/// A disabled filter hands every delta on as visible text and withholds nothing.
pub proof fn disabled_filter_is_identity(delta: Seq<char>)
    ensures
        ThinkState::fresh(false).emits(delta) == (SplitV { reasoning: Seq::empty(), text: delta }),
        ThinkState::fresh(false).after(delta) == ThinkState::fresh(false),
        ThinkState::fresh(false).rest() == SplitV::empty(),
{
}

/// The markers as character vectors.
fn tag_list(close: bool) -> (r: Vec<Vec<char>>)
    ensures
        texts(r@) == tags(close),
{
    let mut out: Vec<Vec<char>> = Vec::new();
    if close {
        out.push(to_chars("</thinking>"));
        out.push(to_chars("</think>"));
        out.push(to_chars("◁/think▷"));
    } else {
        out.push(to_chars("<thinking>"));
        out.push(to_chars("<think>"));
        out.push(to_chars("◁think▷"));
    }
    assert(texts(out@) =~= tags(close));
    out
}

/// Position and length of the first opening marker in `text`, or with `close`
/// of the first closing one.
fn first_tag(text: &Vec<char>, close: bool) -> (r: Option<(usize, usize)>)
    ensures
        match r {
            Some((at, n)) => first_marker(text@, 0, tags(close)) == Some((at as int, n as int)),
            None => first_marker(text@, 0, tags(close)) is None,
        },
{
    let list = tag_list(close);
    find_marker(text, &list)
}

/// The length of the longest end of `text` that is a proper prefix of an
/// opening marker, or with `close` of a closing one.
fn longest_tag_prefix_suffix(text: &Vec<char>, close: bool) -> (r: usize)
    ensures
        r == withheld(text@, tags(close)),
        r <= text@.len(),
{
    let list = tag_list(close);
    longest_prefix_suffix(text, &list)
}

/// Incremental `<think>` splitter for streamed text content.
///
/// Feed content deltas through [`ThinkStreamFilter::push`]; it returns the
/// reasoning and visible text that are safe to emit now. Text that could be
/// (part of) a tag is withheld until the next delta disambiguates it.
#[derive(Debug)]
pub struct ThinkStreamFilter {
    pending: Vec<char>,
    in_think: bool,
    fired: bool,
    enabled: bool,
}

impl View for ThinkStreamFilter {
    type V = ThinkState;

    closed spec fn view(&self) -> ThinkState {
        ThinkState {
            pending: self.pending@,
            in_think: self.in_think,
            fired: self.fired,
            enabled: self.enabled,
        }
    }
}

impl Default for ThinkStreamFilter {
    fn default() -> (r: ThinkStreamFilter)
        ensures
            r@ == ThinkState::fresh(true),
    {
        ThinkStreamFilter::new(true)
    }
}

impl ThinkStreamFilter {
    /// A filter that splits when `enabled`, or passes all text through
    /// untouched as visible text.
    pub fn new(enabled: bool) -> (r: ThinkStreamFilter)
        ensures
            r@ == ThinkState::fresh(enabled),
    {
        ThinkStreamFilter { pending: Vec::new(), in_think: false, fired: false, enabled }
    }

    /// Whether any think markup was actually seen.
    pub fn fired(&self) -> (r: bool)
        ensures
            r == self@.fired,
    {
        self.fired
    }

    /// Append a content delta; returns the portions safe to emit now.
    pub fn push(&mut self, delta: &str) -> (out: ThinkSplit)
        ensures
            out@ == old(self)@.emits(delta@),
            final(self)@ == old(self)@.after(delta@),
    {
        let mut out = ThinkSplit::default();
        if !self.enabled {
            out.text.append(delta);
            assert(out@.text =~= delta@);
            return out;
        }
        let mut more = to_chars(delta);
        self.pending.append(&mut more);
        let ghost whole = scan(self.pending@, self.in_think);
        let ghost was_fired = self.fired;
        assert(SplitV::empty().then_split(whole.out).reasoning =~= whole.out.reasoning);
        assert(SplitV::empty().then_split(whole.out).text =~= whole.out.text);
        loop
            invariant
                self.enabled,
                old(self)@.enabled,
                whole == scan(old(self)@.pending + delta@, old(self)@.in_think),
                was_fired == old(self)@.fired,
                whole.out == out@.then_split(scan(self.pending@, self.in_think).out),
                whole.pending == scan(self.pending@, self.in_think).pending,
                whole.in_think == scan(self.pending@, self.in_think).in_think,
                (was_fired || whole.opened) == (self.fired || scan(
                    self.pending@,
                    self.in_think,
                ).opened),
            decreases self.pending@.len(),
        {
            let ghost p = self.pending@;
            let ghost before = out@;
            let inside = self.in_think;
            match first_tag(&self.pending, inside) {
                Some((at, n)) => {
                    proof {
                        lemma_first_marker(p, 0, tags(inside));
                    }
                    let held: usize = self.pending.len();
                    assert(at + n <= held);
                    self.emit(&mut out, at);
                    self.drop_front(at + n);
                    assert(p.subrange(0, at as int) =~= p.take(at as int));
                    assert(p.subrange(at + n, p.len() as int) =~= p.skip(at + n));
                    proof {
                        lemma_then_split_assoc(
                            before,
                            on_channel(inside, p.take(at as int)),
                            scan(p.skip(at + n), !inside).out,
                        );
                    }
                    if inside {
                        self.in_think = false;
                    } else {
                        self.in_think = true;
                        self.fired = true;
                    }
                },
                None => {
                    let keep: usize = self.pending.len() - longest_tag_prefix_suffix(
                        &self.pending,
                        inside,
                    );
                    self.emit(&mut out, keep);
                    self.drop_front(keep);
                    assert(p.subrange(0, keep as int) =~= p.take(keep as int));
                    assert(p.subrange(keep as int, p.len() as int) =~= p.skip(keep as int));
                    return out;
                },
            }
        }
    }

    /// Consume the filter at end of stream, returning anything still withheld.
    /// An unterminated block is treated as reasoning, not text.
    pub fn finish(self) -> (out: ThinkSplit)
        ensures
            out@ == self@.rest(),
    {
        let mut out = ThinkSplit::default();
        let rest = slice_string(&self.pending, 0, self.pending.len());
        assert(self.pending@.subrange(0, self.pending@.len() as int) =~= self.pending@);
        if self.in_think {
            out.reasoning = rest;
        } else {
            out.text = rest;
        }
        out
    }

    /// Like [`Self::finish`], but leaves a fresh filter behind, enabled as
    /// this one is.
    pub(crate) fn take(&mut self) -> (out: ThinkSplit)
        ensures
            out@ == old(self)@.rest(),
            final(self)@ == ThinkState::fresh(old(self)@.enabled),
    {
        let mut taken = ThinkStreamFilter::new(self.enabled);
        std::mem::swap(self, &mut taken);
        taken.finish()
    }

    /// Emit `self.pending[..upto]` on the channel that is open now.
    fn emit(&self, out: &mut ThinkSplit, upto: usize)
        requires
            upto <= self.pending@.len(),
        ensures
            final(out)@ == old(out)@.then_split(
                on_channel(self.in_think, self.pending@.subrange(0, upto as int)),
            ),
    {
        let chunk = slice_string(&self.pending, 0, upto);
        if self.in_think {
            out.reasoning.append(chunk.as_str());
        } else {
            out.text.append(chunk.as_str());
        }
        assert(out@.reasoning =~= old(out)@.then_split(
            on_channel(self.in_think, self.pending@.subrange(0, upto as int)),
        ).reasoning);
        assert(out@.text =~= old(out)@.then_split(
            on_channel(self.in_think, self.pending@.subrange(0, upto as int)),
        ).text);
    }

    /// Forget the first `n` withheld characters.
    fn drop_front(&mut self, n: usize)
        requires
            n <= old(self).pending@.len(),
        ensures
            final(self).pending@ == old(self).pending@.subrange(
                n as int,
                old(self).pending@.len() as int,
            ),
            final(self).in_think == old(self).in_think,
            final(self).fired == old(self).fired,
            final(self).enabled == old(self).enabled,
    {
        self.pending = slice_chars(&self.pending, n, self.pending.len());
    }
}

/// Whether `text` holds any thinking marker, opening or closing.
pub open spec fn has_think_markup(t: Seq<char>) -> bool {
    exists|close: bool, k: int|
        0 <= k < 3 && #[trigger] find_from(t, 0, tags(close)[k]) is Some
}

/// Whether `text` contains any think marker at all (cheap pre-check).
pub fn contains_think_markup(text: &str) -> (r: bool)
    ensures
        r == has_think_markup(text@),
{
    let chars = to_chars(text);
    let opening = tag_list(false);
    let closing = tag_list(true);
    assert(texts(opening@).len() == 3 && texts(closing@).len() == 3);
    let mut k: usize = 0;
    while k < 3
        invariant
            k <= 3,
            chars@ == text@,
            texts(opening@) == tags(false),
            texts(closing@) == tags(true),
            opening@.len() == 3,
            closing@.len() == 3,
            forall|close: bool, j: int|
                0 <= j < k ==> #[trigger] find_from(text@, 0, tags(close)[j]) is None,
        decreases 3 - k,
    {
        let a = find(&chars, 0, &opening[k]);
        let b = find(&chars, 0, &closing[k]);
        assert(opening@[k as int]@ == texts(opening@)[k as int]);
        assert(closing@[k as int]@ == texts(closing@)[k as int]);
        if a.is_some() {
            assert(find_from(text@, 0, tags(false)[k as int]) is Some);
            return true;
        }
        if b.is_some() {
            assert(find_from(text@, 0, tags(true)[k as int]) is Some);
            return true;
        }
        assert forall|close: bool, j: int| 0 <= j < k + 1 implies #[trigger] find_from(
            text@,
            0,
            tags(close)[j],
        ) is None by {
            if j == k {
                if close {
                } else {
                }
            }
        }
        k = k + 1;
    }
    false
}

/// The channels of a whole text: what is emitted, then what the end releases.
pub open spec fn split_whole(t: Seq<char>) -> SplitV {
    let st = ThinkState::fresh(true);
    st.emits(t).then_split(st.after(t).rest())
}

/// The message with leaked think markup moved out of its text into its
/// reasoning; without an opening marker, the message as it is.
pub open spec fn think_healed(m: ChatMessageV) -> ChatMessageV {
    if first_marker(m.text(), 0, tags(false)) is None {
        m
    } else {
        let split = split_whole(m.text());
        ChatMessageV {
            content: if split.text.len() == 0 {
                None
            } else {
                Some(JsonV::Str(split.text))
            },
            reasoning_content: if split.reasoning.len() == 0 {
                m.reasoning_content
            } else {
                match m.reasoning_content {
                    Some(r) => Some(r + split.reasoning),
                    None => Some(split.reasoning),
                }
            },
            ..m
        }
    }
}

/// Heal a blocking Chat Completions assistant message in place: move leaked
/// think markup out of the visible content and into `reasoning_content`.
pub fn heal_think_chat_message(message: &mut ChatMessage)
    ensures
        final(message)@ == think_healed(old(message)@),
{
    let text = message.text_content().to_owned();
    let chars = to_chars(text.as_str());
    if first_tag(&chars, false).is_none() {
        return;
    }
    let mut filter = ThinkStreamFilter::new(true);
    let mut split = filter.push(text.as_str());
    let tail = filter.finish();
    split.reasoning.append(tail.reasoning.as_str());
    split.text.append(tail.text.as_str());
    assert(Seq::<char>::empty() + text@ =~= text@);
    assert(split@ == split_whole(text@));
    message.content = if split.text.as_str().is_empty() {
        None
    } else {
        Some(Json::Str(split.text))
    };
    if !split.reasoning.as_str().is_empty() {
        let joined = match message.reasoning_content.take() {
            Some(existing) => existing.concat(split.reasoning.as_str()),
            None => split.reasoning,
        };
        message.reasoning_content = Some(joined);
    }
}

} // verus!
