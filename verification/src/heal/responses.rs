//! Healing of Responses streams and bodies: leaked markup is taken out of the
//! text of an upstream's events, and what it held is injected as items.
//!
//! Healthy streams pass through untouched: events are rewritten only after a
//! filter has fired. The one exception is a text delta whose end could grow
//! into a marker; that end is released as a separate delta.
use crate::heal::HealGates;
use crate::heal::dsml::{
    call_id_of, calls_view, leaked, parse_leaked_tool_calls, CallV, DsmlState, DsmlStreamFilter,
    DsmlToolCall,
};
use crate::heal::merge::text_part;
use crate::heal::think::{
    contains_think_markup, has_think_markup, split_whole, text_without_markup_is_kept, SplitV,
    ThinkSplit, ThinkState, ThinkStreamFilter,
};
use crate::ids::{are_uuids, fresh_ids, is_uuid, new_uuid};
use crate::json::{
    items_view, json_parse, json_parse_bytes, json_text, lemma_items_push, lemma_items_view, Json,
    JsonV,
};
use crate::sse::{block, chunks, lemma_chunks_push, push_block, push_verbatim, sse_block, verbatim};
use crate::text::{concat2, opt_text, same, views};
use crate::wire::chat::{opt_json, opt_str};
use vstd::prelude::*;
use vstd::slice::slice_to_vec;
use vstd::utf8::encode_utf8;

verus! {

/// Output-index base for injected items: upstream indexes are small and
/// sequential, so these cannot collide with them.
pub const INJECT_INDEX_BASE: u64 = 10_000;

/// A call that was injected into the stream.
pub struct InjectedV {
    pub item_id: Seq<char>,
    pub call_id: Seq<char>,
    pub call: CallV,
}

/// The state of a [`ResponsesStreamHealer`].
pub struct HealerV {
    pub dsml: DsmlState,
    pub think: ThinkState,
    /// Id and output index of the streamed message item, once it was added.
    pub message_id: Option<Seq<char>>,
    pub message_index: Option<u64>,
    /// The visible text that was forwarded.
    pub healed_text: Seq<char>,
    /// Whether a filter has fired.
    pub healing_fired: bool,
    /// Id and output index of the injected reasoning item.
    pub reasoning: Option<(Seq<char>, u64)>,
    pub reasoning_text: Seq<char>,
    pub injected: Seq<InjectedV>,
    /// Whether the filters were flushed for good.
    pub finished: bool,
    pub next_index: u64,
}

/// A state, and the chunks to forward.
pub struct HealStep {
    pub st: HealerV,
    pub out: Seq<Seq<u8>>,
}

/// The index after `n`.
pub open spec fn next_after(n: u64) -> u64 {
    if n == u64::MAX {
        0
    } else {
        (n + 1) as u64
    }
}

/// A reasoning item.
pub open spec fn reasoning_json(id: Seq<char>, text: Seq<char>) -> JsonV {
    JsonV::object().set("type"@, JsonV::Str("reasoning"@)).set("id"@, JsonV::Str(id)).set(
        "summary"@,
        JsonV::one(text_part("summary_text"@, text)),
    )
}

/// A function call item.
pub open spec fn call_json(
    id: Seq<char>,
    call_id: Seq<char>,
    name: Seq<char>,
    arguments: Seq<char>,
    status: Seq<char>,
) -> JsonV {
    JsonV::object().set("type"@, JsonV::Str("function_call"@)).set("id"@, JsonV::Str(id)).set(
        "call_id"@,
        JsonV::Str(call_id),
    ).set("name"@, JsonV::Str(name)).set("arguments"@, JsonV::Str(arguments)).set(
        "status"@,
        JsonV::Str(status),
    )
}

/// An event about the item at an output index.
pub open spec fn item_event(kind: Seq<char>, index: u64, item: JsonV) -> JsonV {
    JsonV::object().set("type"@, JsonV::Str(kind)).set("output_index"@, JsonV::uint(index)).set(
        "item"@,
        item,
    )
}

/// A content part that is output text, with its text replaced; any other as
/// it is.
pub open spec fn part_with_text(part: JsonV, text: Seq<char>) -> JsonV {
    if part.get_str("type"@) == Some("output_text"@) {
        part.set("text"@, JsonV::Str(text))
    } else {
        part
    }
}

/// An item with the text of its output-text parts replaced.
pub open spec fn with_text(item: JsonV, text: Seq<char>) -> JsonV {
    match item.get_arr("content"@) {
        Some(parts) => item.set(
            "content"@,
            JsonV::Arr(Seq::new(parts.len(), |i: int| part_with_text(parts[i], text))),
        ),
        None => item,
    }
}

/// The position of the first message at or after `i`; the length where there
/// is none.
pub open spec fn first_message(items: Seq<JsonV>, i: int) -> int
    decreases items.len() - i,
{
    if i < 0 || i >= items.len() {
        items.len() as int
    } else if items[i].get_str("type"@) == Some("message"@) {
        i
    } else {
        first_message(items, i + 1)
    }
}

/// The injected calls as items of a completed response.
pub open spec fn injected_items(injected: Seq<InjectedV>) -> Seq<JsonV> {
    Seq::new(
        injected.len(),
        |i: int|
            call_json(
                injected[i].item_id,
                injected[i].call_id,
                injected[i].call.name,
                injected[i].call.arguments,
                "completed"@,
            ),
    )
}

impl HealerV {
    /// The state of a fresh healer.
    pub open spec fn fresh(gates: HealGates) -> HealerV {
        HealerV {
            dsml: DsmlState::fresh(gates.dsml),
            think: ThinkState::fresh(gates.think),
            message_id: None,
            message_index: None,
            healed_text: Seq::empty(),
            healing_fired: false,
            reasoning: None,
            reasoning_text: Seq::empty(),
            injected: Seq::empty(),
            finished: false,
            next_index: INJECT_INDEX_BASE,
        }
    }

    pub open spec fn pass(self, raw: Seq<u8>) -> HealStep {
        HealStep { st: self, out: seq![raw] }
    }

    /// Emits healed reasoning; the reasoning item is added first, with an id
    /// made of `uuid`, where there is none yet.
    pub open spec fn emit_reasoning(self, chunk: Seq<char>, uuid: Seq<char>) -> HealStep {
        let (id, index) = match self.reasoning {
            Some(r) => r,
            None => ("rs_"@ + uuid, self.next_index),
        };
        let added = block(
            "response.output_item.added"@,
            item_event("response.output_item.added"@, index, reasoning_json(id, Seq::empty())),
        );
        let delta = block(
            "response.reasoning_summary_text.delta"@,
            JsonV::object().set("type"@, JsonV::Str("response.reasoning_summary_text.delta"@)).set(
                "item_id"@,
                JsonV::Str(id),
            ).set("output_index"@, JsonV::uint(index)).set("summary_index"@, JsonV::uint(0)).set(
                "delta"@,
                JsonV::Str(chunk),
            ),
        );
        HealStep {
            st: HealerV {
                reasoning: Some((id, index)),
                reasoning_text: self.reasoning_text + chunk,
                next_index: if self.reasoning is Some {
                    self.next_index
                } else {
                    next_after(self.next_index)
                },
                ..self
            },
            out: if self.reasoning is Some {
                seq![delta]
            } else {
                seq![added, delta]
            },
        }
    }

    /// Emits reasoning, if there is any; then healing has fired.
    pub open spec fn reasoning_part(self, chunk: Seq<char>, uuid: Seq<char>) -> HealStep {
        if chunk.len() == 0 {
            HealStep { st: self, out: Seq::empty() }
        } else {
            HealerV { healing_fired: true, ..self }.emit_reasoning(chunk, uuid)
        }
    }

    /// Emits what the filters released: reasoning, then text as a delta of the
    /// streamed message.
    pub open spec fn flush(self, split: SplitV, uuid: Seq<char>) -> HealStep {
        let a = self.reasoning_part(split.reasoning, uuid);
        if split.text.len() == 0 {
            a
        } else {
            HealStep {
                st: HealerV { healed_text: a.st.healed_text + split.text, ..a.st },
                out: a.out.push(
                    block(
                        "response.output_text.delta"@,
                        JsonV::object().set("type"@, JsonV::Str("response.output_text.delta"@)).set(
                            "item_id"@,
                            JsonV::Str(
                                match self.message_id {
                                    Some(id) => id,
                                    None => Seq::empty(),
                                },
                            ),
                        ).set(
                            "output_index"@,
                            JsonV::uint(
                                match self.message_index {
                                    Some(n) => n,
                                    None => 0,
                                },
                            ),
                        ).set("delta"@, JsonV::Str(split.text)),
                    ),
                ),
            }
        }
    }

    /// The state with both filters emptied.
    pub open spec fn drained(self) -> HealerV {
        HealerV {
            dsml: DsmlState::fresh(self.dsml.enabled),
            think: ThinkState::fresh(self.think.enabled),
            ..self
        }
    }

    /// What the two filters still withhold, split; tool-call markup is taken
    /// out before thinking markup.
    pub open spec fn tail_split(self) -> SplitV {
        let text = self.dsml.rest().0;
        self.think.emits(text).then_split(self.think.after(text).rest())
    }

    /// The calls that the tool-call filter still withholds.
    pub open spec fn tail_calls(self) -> Seq<CallV> {
        self.dsml.rest().1
    }

    /// Injects the calls, the `i`-th with ids made of the `i`-th UUIDs.
    pub open spec fn inject(
        self,
        calls: Seq<CallV>,
        fcs: Seq<Seq<char>>,
        cids: Seq<Seq<char>>,
    ) -> HealStep
        decreases calls.len(),
    {
        if calls.len() == 0 {
            HealStep { st: self, out: Seq::empty() }
        } else {
            let i = calls.len() - 1;
            let a = self.inject(calls.drop_last(), fcs, cids);
            let call = calls.last();
            let item_id = "fc_"@ + fcs[i];
            let call_id = call_id_of(cids[i]);
            let index = a.st.next_index;
            HealStep {
                st: HealerV {
                    next_index: next_after(index),
                    injected: a.st.injected.push(InjectedV { item_id, call_id, call }),
                    ..a.st
                },
                out: a.out.push(
                    block(
                        "response.output_item.added"@,
                        item_event(
                            "response.output_item.added"@,
                            index,
                            call_json(item_id, call_id, call.name, Seq::empty(), "in_progress"@),
                        ),
                    ),
                ).push(
                    block(
                        "response.function_call_arguments.delta"@,
                        JsonV::object().set(
                            "type"@,
                            JsonV::Str("response.function_call_arguments.delta"@),
                        ).set("item_id"@, JsonV::Str(item_id)).set(
                            "output_index"@,
                            JsonV::uint(index),
                        ).set("delta"@, JsonV::Str(call.arguments)),
                    ),
                ).push(
                    block(
                        "response.output_item.done"@,
                        item_event(
                            "response.output_item.done"@,
                            index,
                            call_json(item_id, call_id, call.name, call.arguments, "completed"@),
                        ),
                    ),
                ),
            }
        }
    }

    /// Before a done or completed event, while nothing has fired, what is
    /// withheld is released: no delta can complete it any more.
    pub open spec fn release(self, uuid: Seq<char>) -> HealStep {
        if self.healing_fired {
            HealStep { st: self, out: Seq::empty() }
        } else {
            self.drained().flush(self.tail_split(), uuid)
        }
    }

    /// An added message item is the streamed message.
    pub open spec fn added(self, raw: Seq<u8>, event: Option<JsonV>) -> HealStep {
        match event {
            Some(v) => if v.at("item"@).get_str("type"@) == Some("message"@) {
                HealerV {
                    message_id: v.at("item"@).get_str("id"@),
                    message_index: v.at("output_index"@).as_u64(),
                    ..self
                }.pass(raw)
            } else {
                self.pass(raw)
            },
            None => self.pass(raw),
        }
    }

    /// The text of a delta goes through both filters; it is forwarded verbatim
    /// where they change nothing.
    pub open spec fn text_delta(
        self,
        raw: Seq<u8>,
        event: Option<JsonV>,
        uuid: Seq<char>,
    ) -> HealStep {
        match event {
            None => self.pass(raw),
            Some(v) => {
                let delta = match v.get_str("delta"@) {
                    Some(d) => d,
                    None => Seq::empty(),
                };
                let text = self.dsml.emits(delta);
                let split = self.think.emits(text);
                let dsml = self.dsml.after(delta);
                let think = self.think.after(text);
                let fired = dsml.fired != self.dsml.fired || think.fired != self.think.fired;
                let a = HealerV { dsml, think, ..self }.reasoning_part(split.reasoning, uuid);
                let st = HealerV {
                    healed_text: a.st.healed_text + split.text,
                    healing_fired: a.st.healing_fired || fired,
                    ..a.st
                };
                if !fired && split.reasoning.len() == 0 && split.text == delta {
                    st.pass(raw)
                } else if split.text.len() == 0 {
                    HealStep { st, out: a.out }
                } else {
                    HealStep {
                        st,
                        out: a.out.push(
                            block(
                                "response.output_text.delta"@,
                                v.set("delta"@, JsonV::Str(split.text)),
                            ),
                        ),
                    }
                }
            },
        }
    }

    /// A full-text echo, rewritten to the healed text.
    pub open spec fn healed_echo(self, v: JsonV) -> JsonV {
        let full = JsonV::Str(self.healed_text);
        let v = if v.get("text"@) is Some {
            v.set("text"@, full)
        } else {
            v
        };
        if v.at("part"@).get("text"@) is Some {
            v.set("part"@, v.at("part"@).set("text"@, full))
        } else {
            v
        }
    }

    /// Once healing has fired, a full-text echo carries the healed text.
    pub open spec fn echo(self, raw: Seq<u8>, name: Seq<char>, event: Option<JsonV>) -> Seq<u8> {
        match event {
            Some(v) => if self.healing_fired {
                block(name, self.healed_echo(v))
            } else {
                raw
            },
            None => raw,
        }
    }

    /// Whether an item is the streamed message; every item may be, where none
    /// was added.
    pub open spec fn tracks(self, item: JsonV) -> bool {
        match self.message_id {
            Some(id) => item.get_str("id"@) == Some(id),
            None => true,
        }
    }

    /// Once healing has fired, the done event of the streamed message carries
    /// the healed text.
    pub open spec fn item_done(self, raw: Seq<u8>, event: Option<JsonV>) -> Seq<u8> {
        match event {
            Some(v) => {
                let item = v.at("item"@);
                if self.healing_fired && item.get_str("type"@) == Some("message"@) && self.tracks(
                    item,
                ) {
                    block(
                        "response.output_item.done"@,
                        v.set("item"@, with_text(item, self.healed_text)),
                    )
                } else {
                    raw
                }
            },
            None => raw,
        }
    }

    /// An output item of a completed response: the streamed message carries the
    /// healed text.
    pub open spec fn healed_item(self, item: JsonV) -> JsonV {
        if item.get_str("type"@) == Some("message"@) && self.tracks(item) {
            with_text(item, self.healed_text)
        } else {
            item
        }
    }

    /// The output of a completed response: messages healed, the reasoning item
    /// before the first message, the injected calls at the end.
    pub open spec fn healed_output(self, items: Seq<JsonV>) -> Seq<JsonV> {
        let healed = Seq::new(items.len(), |i: int| self.healed_item(items[i]));
        let with_reasoning = match self.reasoning {
            Some((id, _)) => healed.insert(
                first_message(healed, 0),
                reasoning_json(id, self.reasoning_text),
            ),
            None => healed,
        };
        with_reasoning + injected_items(self.injected)
    }

    /// A response object with its output healed.
    pub open spec fn healed_response(self, r: JsonV) -> JsonV {
        match r.get_arr("output"@) {
            Some(items) => r.set("output"@, JsonV::Arr(self.healed_output(items))),
            None => r,
        }
    }

    /// The payload of a completed event, healed; the response stands under
    /// `response` or is the payload itself.
    pub open spec fn healed_payload(self, v: JsonV) -> JsonV {
        match v.get("response"@) {
            Some(r) => v.set("response"@, self.healed_response(r)),
            None => self.healed_response(v),
        }
    }

    /// The end of the stream: what is withheld is flushed, once.
    pub open spec fn end(
        self,
        uuid: Seq<char>,
        fcs: Seq<Seq<char>>,
        cids: Seq<Seq<char>>,
    ) -> HealStep {
        if self.finished {
            HealStep { st: self, out: Seq::empty() }
        } else {
            let a = HealerV { finished: true, ..self.drained() }.flush(self.tail_split(), uuid);
            let b = a.st.inject(self.tail_calls(), fcs, cids);
            HealStep { st: b.st, out: a.out + b.out }
        }
    }

    /// How many calls the end of the stream injects.
    pub open spec fn end_calls(self) -> nat {
        if self.finished {
            0
        } else {
            self.tail_calls().len()
        }
    }

    /// The blocks of a completed event once everything was flushed: the
    /// reasoning item is done, then the response is completed.
    pub open spec fn closing(self, v: JsonV) -> Seq<Seq<u8>> {
        let completed = block("response.completed"@, self.healed_payload(v));
        match self.reasoning {
            Some((id, index)) => seq![
                block(
                    "response.output_item.done"@,
                    item_event(
                        "response.output_item.done"@,
                        index,
                        reasoning_json(id, self.reasoning_text),
                    ),
                ),
                completed,
            ],
            None => seq![completed],
        }
    }

    /// Whether a completed event is rewritten after `release`.
    pub open spec fn rewrites_completed(self, event: Option<JsonV>) -> bool {
        self.healing_fired && event is Some
    }

    /// A completed event: what is withheld is flushed, and once healing has
    /// fired the payload is healed.
    pub open spec fn completed(
        self,
        raw: Seq<u8>,
        event: Option<JsonV>,
        uuid: Seq<char>,
        fcs: Seq<Seq<char>>,
        cids: Seq<Seq<char>>,
    ) -> HealStep {
        let a = self.release(uuid);
        if !a.st.rewrites_completed(event) {
            HealStep { st: a.st, out: a.out.push(raw) }
        } else {
            let b = a.st.end(uuid, fcs, cids);
            HealStep { st: b.st, out: a.out + b.out + b.st.closing(event->0) }
        }
    }

    /// How many calls an event injects.
    pub open spec fn pushed_calls(
        self,
        name: Option<Seq<char>>,
        event: Option<JsonV>,
        uuid: Seq<char>,
    ) -> nat {
        let a = self.release(uuid).st;
        if name == Some("response.completed"@) && a.rewrites_completed(event) {
            a.end_calls()
        } else {
            0
        }
    }

    /// What an event of that name does, where `event` is its payload as JSON.
    /// The ids of injected items are made of `uuid`, `fcs` and `cids`.
    pub open spec fn push(
        self,
        raw: Seq<u8>,
        name: Option<Seq<char>>,
        event: Option<JsonV>,
        uuid: Seq<char>,
        fcs: Seq<Seq<char>>,
        cids: Seq<Seq<char>>,
    ) -> HealStep {
        match name {
            None => self.pass(raw),
            Some(n) => if n == "response.output_item.added"@ {
                self.added(raw, event)
            } else if n == "response.output_text.delta"@ {
                self.text_delta(raw, event, uuid)
            } else if n == "response.output_text.done"@ || n == "response.content_part.done"@ {
                let a = self.release(uuid);
                HealStep { st: a.st, out: a.out.push(a.st.echo(raw, n, event)) }
            } else if n == "response.output_item.done"@ {
                let a = self.release(uuid);
                HealStep { st: a.st, out: a.out.push(a.st.item_done(raw, event)) }
            } else if n == "response.completed"@ {
                self.completed(raw, event, uuid, fcs, cids)
            } else {
                self.pass(raw)
            },
        }
    }
}

/// Whether an event takes `before` to `after`, for the UUIDs that were drawn.
pub open spec fn healed_by(
    before: HealerV,
    after: HealStep,
    raw: Seq<u8>,
    name: Option<Seq<char>>,
    event: Option<JsonV>,
    uuid: Seq<char>,
    fcs: Seq<Seq<char>>,
    cids: Seq<Seq<char>>,
) -> bool {
    &&& is_uuid(uuid)
    &&& are_uuids(fcs, before.pushed_calls(name, event, uuid))
    &&& are_uuids(cids, before.pushed_calls(name, event, uuid))
    &&& after == before.push(raw, name, event, uuid, fcs, cids)
}

/// Whether the end of the stream takes `before` to `after`, for the UUIDs that
/// were drawn.
pub open spec fn ended_by(
    before: HealerV,
    after: HealStep,
    uuid: Seq<char>,
    fcs: Seq<Seq<char>>,
    cids: Seq<Seq<char>>,
) -> bool {
    &&& is_uuid(uuid)
    &&& are_uuids(fcs, before.end_calls())
    &&& are_uuids(cids, before.end_calls())
    &&& after == before.end(uuid, fcs, cids)
}

struct InjectedCall {
    item_id: String,
    call_id: String,
    name: String,
    arguments: String,
}

impl View for InjectedCall {
    type V = InjectedV;

    closed spec fn view(&self) -> InjectedV {
        InjectedV {
            item_id: self.item_id@,
            call_id: self.call_id@,
            call: CallV { name: self.name@, arguments: self.arguments@ },
        }
    }
}

spec fn injected_view(s: Seq<InjectedCall>) -> Seq<InjectedV> {
    Seq::new(s.len(), |i: int| s[i]@)
}

/// Healing rewriter for a Responses stream.
///
/// Feed each upstream event through [`ResponsesStreamHealer::push_event`] and
/// forward the returned chunks; call [`ResponsesStreamHealer::finish`] at
/// stream end.
pub struct ResponsesStreamHealer {
    dsml: DsmlStreamFilter,
    think: ThinkStreamFilter,
    message_item_id: Option<String>,
    message_output_index: Option<u64>,
    healed_text: String,
    healing_fired: bool,
    reasoning: Option<(String, u64)>,
    reasoning_text: String,
    injected_calls: Vec<InjectedCall>,
    finished: bool,
    next_index: u64,
}

impl View for ResponsesStreamHealer {
    type V = HealerV;

    closed spec fn view(&self) -> HealerV {
        HealerV {
            dsml: self.dsml@,
            think: self.think@,
            message_id: opt_str(self.message_item_id),
            message_index: self.message_output_index,
            healed_text: self.healed_text@,
            healing_fired: self.healing_fired,
            reasoning: match self.reasoning {
                Some(r) => Some((r.0@, r.1)),
                None => None,
            },
            reasoning_text: self.reasoning_text@,
            injected: injected_view(self.injected_calls@),
            finished: self.finished,
            next_index: self.next_index,
        }
    }
}

fn index_after(n: u64) -> (r: u64)
    ensures
        r == next_after(n),
{
    if n == u64::MAX {
        0
    } else {
        n + 1
    }
}

fn text_part_value(kind: &str, text: &str) -> (r: Json)
    ensures
        r@ == text_part(kind@, text@),
{
    Json::object().set("type", Json::str(kind)).set("text", Json::str(text))
}

fn reasoning_value(id: &str, text: &str) -> (r: Json)
    ensures
        r@ == reasoning_json(id@, text@),
{
    Json::object().set("type", Json::str("reasoning")).set("id", Json::str(id)).set(
        "summary",
        Json::one(text_part_value("summary_text", text)),
    )
}

fn call_value(id: &str, call_id: &str, name: &str, arguments: &str, status: &str) -> (r: Json)
    ensures
        r@ == call_json(id@, call_id@, name@, arguments@, status@),
{
    Json::object().set("type", Json::str("function_call")).set("id", Json::str(id)).set(
        "call_id",
        Json::str(call_id),
    ).set("name", Json::str(name)).set("arguments", Json::str(arguments)).set(
        "status",
        Json::str(status),
    )
}

fn item_event_value(kind: &str, index: u64, item: Json) -> (r: Json)
    ensures
        r@ == item_event(kind@, index, item@),
{
    Json::object().set("type", Json::str(kind)).set("output_index", Json::uint(index)).set(
        "item",
        item,
    )
}

/// The item with the text of its output-text parts replaced.
fn set_message_text(item: &Json, text: &str) -> (r: Json)
    ensures
        r@ == with_text(item@, text@),
{
    match item.get_array("content") {
        Some(parts) => {
            let mut out: Vec<Json> = Vec::new();
            let mut i: usize = 0;
            let ghost all = items_view(parts@);
            let ghost target = Seq::new(all.len(), |i: int| part_with_text(all[i], text@));
            proof {
                lemma_items_view(parts@);
            }
            assert(target.take(0) =~= Seq::<JsonV>::empty());
            while i < parts.len()
                invariant
                    i <= parts@.len(),
                    all == items_view(parts@),
                    all.len() == parts@.len(),
                    target == Seq::new(all.len(), |i: int| part_with_text(all[i], text@)),
                    items_view(out@) == target.take(i as int),
                decreases parts@.len() - i,
            {
                proof {
                    lemma_items_view(parts@);
                }
                let part = if parts[i].field_is("type", "output_text") {
                    parts[i].dup().set("text", Json::str(text))
                } else {
                    parts[i].dup()
                };
                proof {
                    lemma_items_push(out@, part);
                    assert(part@ == target[i as int]);
                    assert(target.take(i + 1) =~= target.take(i as int).push(target[i as int]));
                }
                out.push(part);
                i = i + 1;
            }
            assert(target.take(i as int) =~= target);
            item.dup().set("content", Json::Arr(out))
        },
        None => item.dup(),
    }
}

impl ResponsesStreamHealer {
    /// A healer honoring the given gates; a closed gate passes all text
    /// through untouched.
    pub fn new(gates: HealGates) -> (r: ResponsesStreamHealer)
        ensures
            r@ == HealerV::fresh(gates),
    {
        let r = ResponsesStreamHealer {
            dsml: DsmlStreamFilter::new(gates.dsml),
            think: ThinkStreamFilter::new(gates.think),
            message_item_id: None,
            message_output_index: None,
            healed_text: String::new(),
            healing_fired: false,
            reasoning: None,
            reasoning_text: String::new(),
            injected_calls: Vec::new(),
            finished: false,
            next_index: INJECT_INDEX_BASE,
        };
        assert(injected_view(r.injected_calls@) =~= Seq::<InjectedV>::empty());
        r
    }

    /// Emit healed reasoning, lazily creating the synthesized reasoning item
    /// with an id made of `uuid`.
    fn emit_reasoning(&mut self, chunk: &str, uuid: &str, out: &mut Vec<Vec<u8>>)
        ensures
            final(self)@ == old(self)@.emit_reasoning(chunk@, uuid@).st,
            chunks(final(out)@) == chunks(old(out)@) + old(self)@.emit_reasoning(
                chunk@,
                uuid@,
            ).out,
    {
        let ghost before = chunks(out@);
        proof {
            reveal_strlit("");
            assert(""@ =~= Seq::<char>::empty());
        }
        let (id, index) = match self.reasoning.take() {
            Some((id, index)) => (id, index),
            None => {
                let index = self.next_index;
                self.next_index = index_after(index);
                let id = concat2("rs_", uuid);
                let event = item_event_value(
                    "response.output_item.added",
                    index,
                    reasoning_value(id.as_str(), ""),
                );
                push_block(out, "response.output_item.added", &event);
                (id, index)
            },
        };
        self.reasoning_text.append(chunk);
        let event = Json::object().set(
            "type",
            Json::str("response.reasoning_summary_text.delta"),
        ).set("item_id", Json::str(id.as_str())).set("output_index", Json::uint(index)).set(
            "summary_index",
            Json::uint(0),
        ).set("delta", Json::str(chunk));
        push_block(out, "response.reasoning_summary_text.delta", &event);
        self.reasoning = Some((id, index));
        assert(chunks(out@) =~= before + old(self)@.emit_reasoning(chunk@, uuid@).out);
    }

    fn reasoning_part(&mut self, chunk: &str, uuid: &str, out: &mut Vec<Vec<u8>>)
        ensures
            final(self)@ == old(self)@.reasoning_part(chunk@, uuid@).st,
            chunks(final(out)@) == chunks(old(out)@) + old(self)@.reasoning_part(
                chunk@,
                uuid@,
            ).out,
    {
        if chunk.is_empty() {
            assert(chunks(out@) =~= chunks(out@) + Seq::<Seq<u8>>::empty());
            return;
        }
        self.healing_fired = true;
        self.emit_reasoning(chunk, uuid, out);
    }

    /// Emit the filters' tail text and reasoning as delta events.
    fn flush_tail(&mut self, split: &ThinkSplit, uuid: &str, out: &mut Vec<Vec<u8>>)
        ensures
            final(self)@ == old(self)@.flush(split@, uuid@).st,
            chunks(final(out)@) == chunks(old(out)@) + old(self)@.flush(split@, uuid@).out,
    {
        let ghost before = chunks(out@);
        self.reasoning_part(split.reasoning.as_str(), uuid, out);
        if !split.text.as_str().is_empty() {
            self.healed_text.append(split.text.as_str());
            let item_id = match &self.message_item_id {
                Some(id) => id.clone(),
                None => String::new(),
            };
            let index = match self.message_output_index {
                Some(n) => n,
                None => 0,
            };
            let event = Json::object().set("type", Json::str("response.output_text.delta")).set(
                "item_id",
                Json::Str(item_id),
            ).set("output_index", Json::uint(index)).set(
                "delta",
                Json::str(split.text.as_str()),
            );
            push_block(out, "response.output_text.delta", &event);
        }
        assert(chunks(out@) =~= before + old(self)@.flush(split@, uuid@).out);
    }

    /// Take what the filters withhold: the text split, and the healed calls.
    fn take_tail(&mut self) -> (r: (ThinkSplit, Vec<DsmlToolCall>))
        ensures
            final(self)@ == old(self)@.drained(),
            r.0@ == old(self)@.tail_split(),
            calls_view(r.1@) == old(self)@.tail_calls(),
    {
        let (dsml_tail, calls) = self.dsml.take();
        let mut split = self.think.push(dsml_tail.as_str());
        let tail = self.think.take();
        split.reasoning.append(tail.reasoning.as_str());
        split.text.append(tail.text.as_str());
        (split, calls)
    }

    /// Emit the function_call triple for each healed call, the `i`-th with ids
    /// made of the `i`-th UUIDs.
    fn inject_calls(
        &mut self,
        calls: &Vec<DsmlToolCall>,
        fcs: &Vec<String>,
        cids: &Vec<String>,
        out: &mut Vec<Vec<u8>>,
    )
        requires
            fcs@.len() == calls@.len(),
            cids@.len() == calls@.len(),
        ensures
            final(self)@ == old(self)@.inject(calls_view(calls@), views(fcs@), views(cids@)).st,
            chunks(final(out)@) == chunks(old(out)@) + old(self)@.inject(
                calls_view(calls@),
                views(fcs@),
                views(cids@),
            ).out,
    {
        let ghost all = calls_view(calls@);
        let ghost before = chunks(out@);
        let ghost start = self@;
        proof {
            reveal_strlit("");
            assert(""@ =~= Seq::<char>::empty());
        }
        let mut i: usize = 0;
        assert(all.take(0) =~= Seq::<CallV>::empty());
        assert(before + Seq::<Seq<u8>>::empty() =~= before);
        while i < calls.len()
            invariant
                i <= calls@.len() == fcs@.len() == cids@.len(),
                all == calls_view(calls@),
                ""@ == Seq::<char>::empty(),
                self@ == start.inject(all.take(i as int), views(fcs@), views(cids@)).st,
                chunks(out@) == before + start.inject(
                    all.take(i as int),
                    views(fcs@),
                    views(cids@),
                ).out,
            decreases calls@.len() - i,
        {
            let ghost prefix = all.take(i + 1);
            proof {
                assert(prefix.drop_last() =~= all.take(i as int));
                assert(prefix.last() == calls@[i as int]@);
            }
            let call = &calls[i];
            let index = self.next_index;
            self.next_index = index_after(index);
            let item_id = concat2("fc_", fcs[i].as_str());
            let call_id = concat2("call_dsml_", cids[i].as_str());
            let added = item_event_value(
                "response.output_item.added",
                index,
                call_value(
                    item_id.as_str(),
                    call_id.as_str(),
                    call.name.as_str(),
                    "",
                    "in_progress",
                ),
            );
            push_block(out, "response.output_item.added", &added);
            let delta = Json::object().set(
                "type",
                Json::str("response.function_call_arguments.delta"),
            ).set("item_id", Json::str(item_id.as_str())).set("output_index", Json::uint(index)).set(
                "delta",
                Json::str(call.arguments.as_str()),
            );
            push_block(out, "response.function_call_arguments.delta", &delta);
            let done = item_event_value(
                "response.output_item.done",
                index,
                call_value(
                    item_id.as_str(),
                    call_id.as_str(),
                    call.name.as_str(),
                    call.arguments.as_str(),
                    "completed",
                ),
            );
            push_block(out, "response.output_item.done", &done);
            let ghost had = self.injected_calls@;
            let record = InjectedCall {
                item_id,
                call_id,
                name: call.name.clone(),
                arguments: call.arguments.clone(),
            };
            self.injected_calls.push(record);
            proof {
                assert(injected_view(self.injected_calls@) =~= injected_view(had).push(record@));
                assert(self@ == start.inject(prefix, views(fcs@), views(cids@)).st);
                assert(chunks(out@) =~= before + start.inject(
                    prefix,
                    views(fcs@),
                    views(cids@),
                ).out);
            }
            i = i + 1;
        }
        assert(all.take(i as int) =~= all);
    }

    /// Release what is withheld before a done or completed event while nothing
    /// has fired.
    fn release_untracked_tail(&mut self, uuid: &str) -> (out: Vec<Vec<u8>>)
        ensures
            (HealStep { st: final(self)@, out: chunks(out@) }) == old(self)@.release(uuid@),
    {
        let mut out: Vec<Vec<u8>> = Vec::new();
        assert(chunks(out@) =~= Seq::<Seq<u8>>::empty());
        if self.healing_fired {
            return out;
        }
        let (split, _calls) = self.take_tail();
        self.flush_tail(&split, uuid, &mut out);
        assert(chunks(out@) =~= old(self)@.release(uuid@).out);
        out
    }

    fn heal_text_delta(&mut self, raw: &[u8], payload: Option<Json>, uuid: &str) -> (out: Vec<
        Vec<u8>,
    >)
        ensures
            (HealStep { st: final(self)@, out: chunks(out@) }) == old(self)@.text_delta(
                raw@,
                opt_json(payload),
                uuid@,
            ),
    {
        let v = match payload {
            Some(v) => v,
            None => {
                return verbatim(raw);
            },
        };
        let delta = match v.get_str("delta") {
            Some(d) => d.to_owned(),
            None => String::new(),
        };
        let dsml_fired_before = self.dsml.fired();
        let think_fired_before = self.think.fired();
        let dsml_text = self.dsml.push(delta.as_str());
        let split = self.think.push(dsml_text.as_str());
        let fired_now = self.dsml.fired() != dsml_fired_before || self.think.fired()
            != think_fired_before;
        let mut out: Vec<Vec<u8>> = Vec::new();
        self.reasoning_part(split.reasoning.as_str(), uuid, &mut out);
        self.healed_text.append(split.text.as_str());
        if fired_now {
            self.healing_fired = true;
        }
        if !fired_now && split.reasoning.as_str().is_empty() && same(
            split.text.as_str(),
            delta.as_str(),
        ) {
            return verbatim(raw);
        }
        if !split.text.as_str().is_empty() {
            let event = v.set("delta", Json::Str(split.text));
            push_block(&mut out, "response.output_text.delta", &event);
        }
        assert(chunks(out@) =~= old(self)@.text_delta(raw@, opt_json(payload), uuid@).out);
        out
    }

    /// A full-text echo, rewritten to the healed text once healing has fired.
    fn rewrite_text_echo(&self, raw: &[u8], name: &str, payload: Option<Json>) -> (r: Vec<u8>)
        ensures
            r@ == self@.echo(raw@, name@, opt_json(payload)),
    {
        let v = match payload {
            Some(v) => v,
            None => {
                return slice_to_vec(raw);
            },
        };
        if !self.healing_fired {
            return slice_to_vec(raw);
        }
        let v = if v.get("text").is_some() {
            v.set("text", Json::Str(self.healed_text.clone()))
        } else {
            v
        };
        let part = match v.get("part") {
            Some(p) => if p.get("text").is_some() {
                Some(p.dup().set("text", Json::Str(self.healed_text.clone())))
            } else {
                None
            },
            None => None,
        };
        let v = match part {
            Some(p) => v.set("part", p),
            None => v,
        };
        sse_block(name, &v)
    }

    /// Whether an item is the streamed message.
    fn is_tracked(&self, item: &Json) -> (r: bool)
        ensures
            r == self@.tracks(item@),
    {
        match &self.message_item_id {
            Some(id) => item.field_is("id", id.as_str()),
            None => true,
        }
    }

    fn rewrite_item_done(&self, raw: &[u8], payload: Option<Json>) -> (r: Vec<u8>)
        ensures
            r@ == self@.item_done(raw@, opt_json(payload)),
    {
        let v = match payload {
            Some(v) => v,
            None => {
                return slice_to_vec(raw);
            },
        };
        let healed = match v.get("item") {
            Some(item) => if self.healing_fired && item.field_is("type", "message")
                && self.is_tracked(item) {
                Some(set_message_text(item, self.healed_text.as_str()))
            } else {
                None
            },
            None => None,
        };
        match healed {
            Some(item) => {
                let v = v.set("item", item);
                sse_block("response.output_item.done", &v)
            },
            None => slice_to_vec(raw),
        }
    }

    /// The output items of a completed response, healed.
    fn heal_output(&self, items: &Vec<Json>) -> (r: Vec<Json>)
        ensures
            items_view(r@) == self@.healed_output(items_view(items@)),
    {
        let ghost all = items_view(items@);
        let ghost healed = Seq::new(all.len(), |i: int| self@.healed_item(all[i]));
        proof {
            lemma_items_view(items@);
        }
        let mut out: Vec<Json> = Vec::new();
        let mut i: usize = 0;
        assert(healed.take(0) =~= Seq::<JsonV>::empty());
        while i < items.len()
            invariant
                i <= items@.len(),
                all == items_view(items@),
                all.len() == items@.len(),
                healed == Seq::new(all.len(), |i: int| self@.healed_item(all[i])),
                items_view(out@) == healed.take(i as int),
            decreases items@.len() - i,
        {
            proof {
                lemma_items_view(items@);
            }
            let item = if items[i].field_is("type", "message") && self.is_tracked(&items[i]) {
                set_message_text(&items[i], self.healed_text.as_str())
            } else {
                items[i].dup()
            };
            proof {
                lemma_items_push(out@, item);
                assert(item@ == healed[i as int]);
                assert(healed.take(i + 1) =~= healed.take(i as int).push(healed[i as int]));
            }
            out.push(item);
            i = i + 1;
        }
        assert(healed.take(i as int) =~= healed);
        if let Some((id, _)) = &self.reasoning {
            let at = message_position(&out);
            let item = reasoning_value(id.as_str(), self.reasoning_text.as_str());
            let ghost before = out@;
            proof {
                lemma_items_view(before);
                lemma_items_view(before.insert(at as int, item));
                assert(items_view(before.insert(at as int, item)) =~= items_view(before).insert(
                    at as int,
                    item@,
                ));
            }
            out.insert(at, item);
        }
        let ghost with_reasoning = items_view(out@);
        let ghost extra = injected_items(self@.injected);
        let mut k: usize = 0;
        assert(with_reasoning + extra.take(0) =~= with_reasoning);
        while k < self.injected_calls.len()
            invariant
                k <= self.injected_calls@.len(),
                extra == injected_items(self@.injected),
                items_view(out@) == with_reasoning + extra.take(k as int),
            decreases self.injected_calls@.len() - k,
        {
            let c = &self.injected_calls[k];
            let item = call_value(
                c.item_id.as_str(),
                c.call_id.as_str(),
                c.name.as_str(),
                c.arguments.as_str(),
                "completed",
            );
            proof {
                lemma_items_push(out@, item);
                assert(item@ == extra[k as int]);
                assert(with_reasoning + extra.take(k + 1) =~= (with_reasoning + extra.take(
                    k as int,
                )).push(extra[k as int]));
            }
            out.push(item);
            k = k + 1;
        }
        assert(extra.take(k as int) =~= extra);
        out
    }

    fn heal_response(&self, r: &Json) -> (out: Json)
        ensures
            out@ == self@.healed_response(r@),
    {
        match r.get_array("output") {
            Some(items) => r.dup().set("output", Json::Arr(self.heal_output(items))),
            None => r.dup(),
        }
    }

    /// The chunks that close a healed stream: the reasoning item is done, then
    /// the rewritten completed event.
    fn rewrite_completed(&self, v: Json, out: &mut Vec<Vec<u8>>)
        ensures
            chunks(final(out)@) == chunks(old(out)@) + self@.closing(v@),
    {
        let ghost before = chunks(out@);
        let response = match v.get("response") {
            Some(r) => Some(self.heal_response(r)),
            None => None,
        };
        let healed = match response {
            Some(r) => v.set("response", r),
            None => self.heal_response(&v),
        };
        if let Some((id, index)) = &self.reasoning {
            let event = item_event_value(
                "response.output_item.done",
                *index,
                reasoning_value(id.as_str(), self.reasoning_text.as_str()),
            );
            push_block(out, "response.output_item.done", &event);
        }
        push_block(out, "response.completed", &healed);
        assert(chunks(out@) =~= before + self@.closing(v@));
    }

    /// Process one upstream event; returns the chunks to forward.
    pub fn push_event(&mut self, raw: &[u8], event: Option<&str>, data: &str) -> (out: Vec<Vec<u8>>)
        ensures
            exists|uuid: Seq<char>, fcs: Seq<Seq<char>>, cids: Seq<Seq<char>>| #[trigger]
                healed_by(
                    old(self)@,
                    HealStep { st: final(self)@, out: chunks(out@) },
                    raw@,
                    opt_text(event),
                    json_parse(data@),
                    uuid,
                    fcs,
                    cids,
                ),
    {
        let payload = Json::parse(data);
        self.push_parsed(raw, event, payload)
    }

    /// [`Self::push_event`] on a payload that was read already.
    pub fn push_parsed(
        &mut self,
        raw: &[u8],
        event: Option<&str>,
        payload: Option<Json>,
    ) -> (out: Vec<Vec<u8>>)
        ensures
            exists|uuid: Seq<char>, fcs: Seq<Seq<char>>, cids: Seq<Seq<char>>| #[trigger]
                healed_by(
                    old(self)@,
                    HealStep { st: final(self)@, out: chunks(out@) },
                    raw@,
                    opt_text(event),
                    opt_json(payload),
                    uuid,
                    fcs,
                    cids,
                ),
    {
        let uuid = new_uuid();
        let name = match event {
            Some(e) => e,
            None => {
                let out = verbatim(raw);
                assert(healed_by(
                    old(self)@,
                    HealStep { st: self@, out: chunks(out@) },
                    raw@,
                    None,
                    opt_json(payload),
                    uuid@,
                    Seq::empty(),
                    Seq::empty(),
                ));
                return out;
            },
        };
        let ghost event_v = opt_json(payload);
        if same(name, "response.completed") {
            let (out, ids) = self.on_completed(raw, payload, uuid.as_str());
            proof {
                reveal_strlit("response.completed");
                reveal_strlit("response.output_item.added");
                reveal_strlit("response.output_text.delta");
                reveal_strlit("response.output_text.done");
                reveal_strlit("response.content_part.done");
                reveal_strlit("response.output_item.done");
                assert(name@[9] == 'c');
                assert(name@[10] == 'o' && name@[11] == 'm');
                assert(healed_by(
                    old(self)@,
                    HealStep { st: self@, out: chunks(out@) },
                    raw@,
                    Some(name@),
                    event_v,
                    uuid@,
                    ids@.0,
                    ids@.1,
                ));
            }
            return out;
        }
        let out = self.on_other(raw, name, payload, uuid.as_str());
        assert(healed_by(
            old(self)@,
            HealStep { st: self@, out: chunks(out@) },
            raw@,
            Some(name@),
            event_v,
            uuid@,
            Seq::empty(),
            Seq::empty(),
        ));
        out
    }

    /// An event other than the completed one.
    fn on_other(&mut self, raw: &[u8], name: &str, payload: Option<Json>, uuid: &str) -> (out: Vec<
        Vec<u8>,
    >)
        requires
            name@ != "response.completed"@,
        ensures
            (HealStep { st: final(self)@, out: chunks(out@) }) == old(self)@.push(
                raw@,
                Some(name@),
                opt_json(payload),
                uuid@,
                Seq::empty(),
                Seq::empty(),
            ),
    {
        if same(name, "response.output_item.added") {
            self.on_added(raw, payload)
        } else if same(name, "response.output_text.delta") {
            self.heal_text_delta(raw, payload, uuid)
        } else if same(name, "response.output_text.done") || same(
            name,
            "response.content_part.done",
        ) {
            let mut out = self.release_untracked_tail(uuid);
            let c = self.rewrite_text_echo(raw, name, payload);
            proof {
                lemma_chunks_push(out@, c);
            }
            out.push(c);
            out
        } else if same(name, "response.output_item.done") {
            let mut out = self.release_untracked_tail(uuid);
            let c = self.rewrite_item_done(raw, payload);
            proof {
                lemma_chunks_push(out@, c);
            }
            out.push(c);
            out
        } else {
            verbatim(raw)
        }
    }

    /// Flush whatever the filters still withhold, once; the ids of injected
    /// calls are drawn.
    fn flush_end(&mut self, uuid: &str) -> (r: (
        Vec<Vec<u8>>,
        Ghost<(Seq<Seq<char>>, Seq<Seq<char>>)>,
    ))
        ensures
            are_uuids(r.1@.0, old(self)@.end_calls()),
            are_uuids(r.1@.1, old(self)@.end_calls()),
            (HealStep { st: final(self)@, out: chunks(r.0@) }) == old(self)@.end(
                uuid@,
                r.1@.0,
                r.1@.1,
            ),
    {
        let mut out: Vec<Vec<u8>> = Vec::new();
        if self.finished {
            assert(chunks(out@) =~= Seq::<Seq<u8>>::empty());
            return (out, Ghost((Seq::empty(), Seq::empty())));
        }
        self.finished = true;
        let (split, calls) = self.take_tail();
        let fcs = fresh_ids(calls.len());
        let cids = fresh_ids(calls.len());
        self.flush_tail(&split, uuid, &mut out);
        self.inject_calls(&calls, &fcs, &cids, &mut out);
        assert(chunks(out@) =~= old(self)@.end(uuid@, views(fcs@), views(cids@)).out);
        (out, Ghost((views(fcs@), views(cids@))))
    }

    fn on_completed(&mut self, raw: &[u8], payload: Option<Json>, uuid: &str) -> (r: (
        Vec<Vec<u8>>,
        Ghost<(Seq<Seq<char>>, Seq<Seq<char>>)>,
    ))
        ensures
            are_uuids(
                r.1@.0,
                old(self)@.pushed_calls(Some("response.completed"@), opt_json(payload), uuid@),
            ),
            are_uuids(
                r.1@.1,
                old(self)@.pushed_calls(Some("response.completed"@), opt_json(payload), uuid@),
            ),
            (HealStep { st: final(self)@, out: chunks(r.0@) }) == old(self)@.completed(
                raw@,
                opt_json(payload),
                uuid@,
                r.1@.0,
                r.1@.1,
            ),
    {
        let mut out = self.release_untracked_tail(uuid);
        let v = match payload {
            Some(v) => v,
            None => {
                push_verbatim(&mut out, raw);
                return (out, Ghost((Seq::empty(), Seq::empty())));
            },
        };
        if !self.healing_fired {
            push_verbatim(&mut out, raw);
            return (out, Ghost((Seq::empty(), Seq::empty())));
        }
        let ghost released = chunks(out@);
        let (mut more, ids) = self.flush_end(uuid);
        let ghost flushed = chunks(more@);
        self.rewrite_completed(v, &mut more);
        let ghost o1 = out@;
        let ghost m1 = more@;
        out.append(&mut more);
        assert(chunks(out@) =~= chunks(o1) + chunks(m1));
        assert(chunks(out@) =~= released + flushed + self@.closing(v@));
        (out, ids)
    }

    fn on_added(&mut self, raw: &[u8], payload: Option<Json>) -> (out: Vec<Vec<u8>>)
        ensures
            (HealStep { st: final(self)@, out: chunks(out@) }) == old(self)@.added(
                raw@,
                opt_json(payload),
            ),
    {
        if let Some(v) = payload {
            if let Some(item) = v.get("item") {
                if item.field_is("type", "message") {
                    self.message_item_id = match item.get_str("id") {
                        Some(id) => Some(id.to_owned()),
                        None => None,
                    };
                    self.message_output_index = match v.get("output_index") {
                        Some(n) => n.as_u64(),
                        None => None,
                    };
                }
            }
        }
        verbatim(raw)
    }

    /// Stream end: flush whatever the filters still withhold; healed calls are
    /// injected even without a completed event.
    pub fn finish(&mut self) -> (out: Vec<Vec<u8>>)
        ensures
            exists|uuid: Seq<char>, fcs: Seq<Seq<char>>, cids: Seq<Seq<char>>| #[trigger]
                ended_by(
                    old(self)@,
                    HealStep { st: final(self)@, out: chunks(out@) },
                    uuid,
                    fcs,
                    cids,
                ),
    {
        let uuid = new_uuid();
        let (out, ids) = self.flush_end(uuid.as_str());
        assert(ended_by(
            old(self)@,
            HealStep { st: self@, out: chunks(out@) },
            uuid@,
            ids@.0,
            ids@.1,
        ));
        out
    }
}

/// The position of the first message; the length where there is none.
fn message_position(items: &Vec<Json>) -> (r: usize)
    ensures
        r == first_message(items_view(items@), 0),
        r <= items@.len(),
{
    proof {
        lemma_items_view(items@);
    }
    let mut i: usize = 0;
    while i < items.len()
        invariant
            i <= items@.len(),
            first_message(items_view(items@), 0) == first_message(items_view(items@), i as int),
            items_view(items@).len() == items@.len(),
        decreases items@.len() - i,
    {
        proof {
            lemma_items_view(items@);
        }
        if items[i].field_is("type", "message") {
            return i;
        }
        i = i + 1;
    }
    i
}

/// A content part with leaked markup taken out, the calls that it held, the
/// reasoning that it held, and whether it held any markup.
pub struct PartScan {
    pub part: JsonV,
    pub calls: Seq<CallV>,
    pub reasoning: Seq<char>,
    pub fired: bool,
}

/// Whether the filter for thinking markup fires on a text.
pub open spec fn opens_thinking(t: Seq<char>) -> bool {
    has_think_markup(t) && ThinkState::fresh(true).after(t).fired
}

/// Heals an output-text part; any other part is left as it is. Tool-call
/// markup is taken out before thinking markup.
pub open spec fn scan_part(part: JsonV, gates: HealGates) -> PartScan {
    let untouched = PartScan {
        part,
        calls: Seq::empty(),
        reasoning: Seq::empty(),
        fired: false,
    };
    match part.get_str("text"@) {
        Some(text) => if part.get_str("type"@) != Some("output_text"@) {
            untouched
        } else {
            let (cleaned, calls) = match leaked(text) {
                Some((c, cs)) => if gates.dsml {
                    (c, cs)
                } else {
                    (text, Seq::empty())
                },
                None => (text, Seq::empty()),
            };
            let split = if gates.think && has_think_markup(cleaned) {
                split_whole(cleaned)
            } else {
                SplitV { reasoning: Seq::empty(), text: cleaned }
            };
            PartScan {
                part: if split.text == text {
                    part
                } else {
                    part.set("text"@, JsonV::Str(split.text))
                },
                calls,
                reasoning: split.reasoning,
                fired: calls.len() > 0 || (gates.think && opens_thinking(cleaned)),
            }
        },
        None => untouched,
    }
}

/// Healed values, the calls that they held, the reasoning texts that they held,
/// each with the position of the value, and whether they held any markup.
pub struct ListScan {
    pub items: Seq<JsonV>,
    pub calls: Seq<CallV>,
    pub reasonings: Seq<(int, Seq<char>)>,
    pub fired: bool,
}

/// Heals the content parts of a message that stands at `at`.
pub open spec fn scan_parts(parts: Seq<JsonV>, gates: HealGates, at: int) -> ListScan
    decreases parts.len(),
{
    if parts.len() == 0 {
        ListScan {
            items: Seq::empty(),
            calls: Seq::empty(),
            reasonings: Seq::empty(),
            fired: false,
        }
    } else {
        let a = scan_parts(parts.drop_last(), gates, at);
        let p = scan_part(parts.last(), gates);
        ListScan {
            items: a.items.push(p.part),
            calls: a.calls + p.calls,
            reasonings: if p.reasoning.len() == 0 {
                a.reasonings
            } else {
                a.reasonings.push((at, p.reasoning))
            },
            fired: a.fired || p.fired,
        }
    }
}

/// Heals the messages of an output list.
pub open spec fn scan_output(items: Seq<JsonV>, gates: HealGates) -> ListScan
    decreases items.len(),
{
    if items.len() == 0 {
        ListScan {
            items: Seq::empty(),
            calls: Seq::empty(),
            reasonings: Seq::empty(),
            fired: false,
        }
    } else {
        let a = scan_output(items.drop_last(), gates);
        let item = items.last();
        match item.get_arr("content"@) {
            Some(parts) => if item.get_str("type"@) == Some("message"@) {
                let p = scan_parts(parts, gates, items.len() - 1);
                ListScan {
                    items: a.items.push(item.set("content"@, JsonV::Arr(p.items))),
                    calls: a.calls + p.calls,
                    reasonings: a.reasonings + p.reasonings,
                    fired: a.fired || p.fired,
                }
            } else {
                ListScan { items: a.items.push(item), ..a }
            },
            None => ListScan { items: a.items.push(item), ..a },
        }
    }
}

/// The items with the first `n` reasoning items inserted before the items at
/// their positions, the `i`-th with an id made of the `i`-th UUID.
pub open spec fn with_reasonings(
    items: Seq<JsonV>,
    reasonings: Seq<(int, Seq<char>)>,
    uuids: Seq<Seq<char>>,
    n: int,
) -> Seq<JsonV>
    decreases n,
{
    if n <= 0 {
        items
    } else {
        let (at, text) = reasonings[n - 1];
        with_reasonings(
            items.insert(at, reasoning_json("rs_"@ + uuids[n - 1], text)),
            reasonings,
            uuids,
            n - 1,
        )
    }
}

/// The calls as completed items, the `i`-th with ids made of the `i`-th UUIDs.
pub open spec fn call_items(
    calls: Seq<CallV>,
    fcs: Seq<Seq<char>>,
    cids: Seq<Seq<char>>,
) -> Seq<JsonV> {
    Seq::new(
        calls.len(),
        |i: int|
            call_json(
                "fc_"@ + fcs[i],
                call_id_of(cids[i]),
                calls[i].name,
                calls[i].arguments,
                "completed"@,
            ),
    )
}

/// The output list that a scan is put together to: reasoning items before
/// their messages, calls at the end.
pub open spec fn assembled(
    scan: ListScan,
    rss: Seq<Seq<char>>,
    fcs: Seq<Seq<char>>,
    cids: Seq<Seq<char>>,
) -> Seq<JsonV> {
    with_reasonings(scan.items, scan.reasonings, rss, scan.reasonings.len() as int) + call_items(
        scan.calls,
        fcs,
        cids,
    )
}

/// The response object of a body: under `response`, or the body itself.
pub open spec fn response_of(v: JsonV) -> JsonV {
    match v.get("response"@) {
        Some(r) => r,
        None => v,
    }
}

/// What healing finds in a body; none where there is nothing to heal.
pub open spec fn body_scan(v: Option<JsonV>, gates: HealGates) -> Option<ListScan> {
    match v {
        Some(v) => match response_of(v).get_arr("output"@) {
            Some(items) => {
                let scan = scan_output(items, gates);
                if scan.fired {
                    Some(scan)
                } else {
                    None
                }
            },
            None => None,
        },
        None => None,
    }
}

/// A body with its output list replaced.
pub open spec fn with_output(v: JsonV, output: Seq<JsonV>) -> JsonV {
    let healed = response_of(v).set("output"@, JsonV::Arr(output));
    if v.get("response"@) is Some {
        v.set("response"@, healed)
    } else {
        healed
    }
}

/// Whether `after` is the body `before`, whose JSON value is `v`, healed: the
/// bytes stay as they are where there is nothing to heal.
pub open spec fn body_healed(
    before: Seq<u8>,
    v: Option<JsonV>,
    gates: HealGates,
    after: Seq<u8>,
    rss: Seq<Seq<char>>,
    fcs: Seq<Seq<char>>,
    cids: Seq<Seq<char>>,
) -> bool {
    match body_scan(v, gates) {
        None => after == before,
        Some(scan) => {
            &&& are_uuids(rss, scan.reasonings.len())
            &&& are_uuids(fcs, scan.calls.len())
            &&& are_uuids(cids, scan.calls.len())
            &&& after == encode_utf8(json_text(with_output(v->0, assembled(scan, rss, fcs, cids))))
        },
    }
}

/// The reasoning texts with their positions.
pub open spec fn reasonings_view(s: Seq<(usize, String)>) -> Seq<(int, Seq<char>)> {
    Seq::new(s.len(), |i: int| (s[i].0 as int, s[i].1@))
}

/// Heals a content part; what it held is appended to `calls` and `reasonings`,
/// and `fired` is set where it held any markup.
fn heal_part(
    part: &Json,
    gates: HealGates,
    at: usize,
    calls: &mut Vec<DsmlToolCall>,
    reasonings: &mut Vec<(usize, String)>,
    fired: &mut bool,
) -> (r: Json)
    ensures
        *final(fired) == (*old(fired) || scan_part(part@, gates).fired),
        r@ == scan_part(part@, gates).part,
        calls_view(final(calls)@) == calls_view(old(calls)@) + scan_part(part@, gates).calls,
        reasonings_view(final(reasonings)@) == (if scan_part(part@, gates).reasoning.len() == 0 {
            reasonings_view(old(reasonings)@)
        } else {
            reasonings_view(old(reasonings)@).push((at as int, scan_part(part@, gates).reasoning))
        }),
{
    assert(calls_view(calls@) =~= calls_view(calls@) + Seq::<CallV>::empty());
    if !part.field_is("type", "output_text") {
        return part.dup();
    }
    let text = match part.get_str("text") {
        Some(t) => t.to_owned(),
        None => {
            return part.dup();
        },
    };
    let mut cleaned = text.clone();
    if gates.dsml {
        if let Some((c, found)) = parse_leaked_tool_calls(text.as_str()) {
            cleaned = c;
            let mut found = found;
            let ghost before = calls@;
            let ghost more = found@;
            calls.append(&mut found);
            assert(calls_view(calls@) =~= calls_view(before) + calls_view(more));
            *fired = true;
        }
    }
    let visible = if gates.think && contains_think_markup(cleaned.as_str()) {
        let mut filter = ThinkStreamFilter::new(true);
        let mut split = filter.push(cleaned.as_str());
        if filter.fired() {
            *fired = true;
        }
        let tail = filter.finish();
        split.reasoning.append(tail.reasoning.as_str());
        split.text.append(tail.text.as_str());
        assert(split@ == split_whole(cleaned@));
        if !split.reasoning.as_str().is_empty() {
            let ghost before = reasonings@;
            let entry = (at, split.reasoning);
            reasonings.push(entry);
            assert(reasonings_view(reasonings@) =~= reasonings_view(before).push(
                (at as int, entry.1@),
            ));
        }
        split.text
    } else {
        cleaned
    };
    if same(visible.as_str(), text.as_str()) {
        part.dup()
    } else {
        part.dup().set("text", Json::Str(visible))
    }
}

/// Heals the content parts of the message at `at`.
fn heal_parts(
    parts: &Vec<Json>,
    gates: HealGates,
    at: usize,
    calls: &mut Vec<DsmlToolCall>,
    reasonings: &mut Vec<(usize, String)>,
    fired: &mut bool,
) -> (r: Vec<Json>)
    ensures
        *final(fired) == (*old(fired) || scan_parts(items_view(parts@), gates, at as int).fired),
        items_view(r@) == scan_parts(items_view(parts@), gates, at as int).items,
        calls_view(final(calls)@) == calls_view(old(calls)@) + scan_parts(
            items_view(parts@),
            gates,
            at as int,
        ).calls,
        reasonings_view(final(reasonings)@) == reasonings_view(old(reasonings)@) + scan_parts(
            items_view(parts@),
            gates,
            at as int,
        ).reasonings,
{
    let ghost all = items_view(parts@);
    proof {
        lemma_items_view(parts@);
    }
    let mut out: Vec<Json> = Vec::new();
    let mut i: usize = 0;
    assert(all.take(0) =~= Seq::<JsonV>::empty());
    assert(calls_view(calls@) =~= calls_view(calls@) + Seq::<CallV>::empty());
    assert(reasonings_view(reasonings@) =~= reasonings_view(reasonings@) + Seq::<
        (int, Seq<char>),
    >::empty());
    while i < parts.len()
        invariant
            i <= parts@.len(),
            all == items_view(parts@),
            all.len() == parts@.len(),
            *fired == (*old(fired) || scan_parts(all.take(i as int), gates, at as int).fired),
            items_view(out@) == scan_parts(all.take(i as int), gates, at as int).items,
            calls_view(calls@) == calls_view(old(calls)@) + scan_parts(
                all.take(i as int),
                gates,
                at as int,
            ).calls,
            reasonings_view(reasonings@) == reasonings_view(old(reasonings)@) + scan_parts(
                all.take(i as int),
                gates,
                at as int,
            ).reasonings,
        decreases parts@.len() - i,
    {
        let ghost prefix = all.take(i + 1);
        let ghost done = scan_parts(all.take(i as int), gates, at as int);
        let ghost one = scan_part(parts@[i as int]@, gates);
        proof {
            lemma_items_view(parts@);
            assert(prefix.drop_last() =~= all.take(i as int));
            assert(prefix.last() == parts@[i as int]@);
        }
        let part = heal_part(&parts[i], gates, at, calls, reasonings, fired);
        proof {
            lemma_items_push(out@, part);
            assert(calls_view(old(calls)@) + done.calls + one.calls =~= calls_view(old(calls)@) + (
            done.calls + one.calls));
            assert((reasonings_view(old(reasonings)@) + done.reasonings).push(
                (at as int, one.reasoning),
            ) =~= reasonings_view(old(reasonings)@) + done.reasonings.push(
                (at as int, one.reasoning),
            ));
        }
        out.push(part);
        i = i + 1;
    }
    assert(all.take(i as int) =~= all);
    out
}

/// Heals the messages of an output list.
fn heal_items(
    items: &Vec<Json>,
    gates: HealGates,
    calls: &mut Vec<DsmlToolCall>,
    reasonings: &mut Vec<(usize, String)>,
    fired: &mut bool,
) -> (r: Vec<Json>)
    requires
        old(calls)@.len() == 0,
        old(reasonings)@.len() == 0,
        !*old(fired),
    ensures
        (ListScan {
            items: items_view(r@),
            calls: calls_view(final(calls)@),
            reasonings: reasonings_view(final(reasonings)@),
            fired: *final(fired),
        }) == scan_output(items_view(items@), gates),
        r@.len() == items@.len(),
        forall|k: int|
            0 <= k < final(reasonings)@.len() ==> (#[trigger] final(reasonings)@[k]).0
                < items@.len(),
{
    let ghost all = items_view(items@);
    proof {
        lemma_items_view(items@);
    }
    let mut out: Vec<Json> = Vec::new();
    let mut i: usize = 0;
    assert(all.take(0) =~= Seq::<JsonV>::empty());
    assert(calls_view(calls@) =~= Seq::<CallV>::empty());
    assert(reasonings_view(reasonings@) =~= Seq::<(int, Seq<char>)>::empty());
    while i < items.len()
        invariant
            i <= items@.len(),
            all == items_view(items@),
            all.len() == items@.len(),
            out@.len() == i,
            (ListScan {
                items: items_view(out@),
                calls: calls_view(calls@),
                reasonings: reasonings_view(reasonings@),
                fired: *fired,
            }) == scan_output(all.take(i as int), gates),
            forall|k: int| 0 <= k < reasonings@.len() ==> (#[trigger] reasonings@[k]).0 < i,
        decreases items@.len() - i,
    {
        let ghost prefix = all.take(i + 1);
        proof {
            lemma_items_view(items@);
            assert(prefix.drop_last() =~= all.take(i as int));
            assert(prefix.last() == items@[i as int]@);
        }
        let ghost before = reasonings@;
        let healed = if items[i].field_is("type", "message") {
            match items[i].get_array("content") {
                Some(parts) => {
                    let parts = heal_parts(parts, gates, i, calls, reasonings, fired);
                    proof {
                        let added = scan_parts(
                            items@[i as int]@.get_arr("content"@)->0,
                            gates,
                            i as int,
                        ).reasonings;
                        lemma_scan_parts_at(
                            items@[i as int]@.get_arr("content"@)->0,
                            gates,
                            i as int,
                        );
                        assert(reasonings_view(reasonings@) == reasonings_view(before) + added);
                        assert(reasonings_view(reasonings@).len() == reasonings@.len());
                        assert(reasonings_view(before).len() == before.len());
                        assert forall|k: int| 0 <= k < reasonings@.len() implies (
                        #[trigger] reasonings@[k]).0 < i + 1 by {
                            assert(reasonings_view(reasonings@)[k].0 == reasonings@[k].0);
                            if k < before.len() {
                                assert(reasonings_view(before)[k].0 == before[k].0);
                            } else {
                                assert(reasonings_view(reasonings@)[k] == added[k - before.len()]);
                            }
                        }
                    }
                    items[i].dup().set("content", Json::Arr(parts))
                },
                None => items[i].dup(),
            }
        } else {
            items[i].dup()
        };
        proof {
            lemma_items_push(out@, healed);
        }
        out.push(healed);
        i = i + 1;
    }
    assert(all.take(i as int) =~= all);
    out
}

proof fn lemma_scan_parts_at(parts: Seq<JsonV>, gates: HealGates, at: int)
    ensures
        forall|k: int|
            0 <= k < scan_parts(parts, gates, at).reasonings.len() ==> (#[trigger] scan_parts(
                parts,
                gates,
                at,
            ).reasonings[k]).0 == at,
    decreases parts.len(),
{
    if parts.len() > 0 {
        lemma_scan_parts_at(parts.drop_last(), gates, at);
        let a = scan_parts(parts.drop_last(), gates, at).reasonings;
        let r = scan_parts(parts, gates, at).reasonings;
        assert forall|k: int| 0 <= k < r.len() implies (#[trigger] r[k]).0 == at by {
            if k < a.len() {
                assert(r[k] == a[k]);
            }
        }
    }
}

/// Puts an output list together: reasoning items before their messages, calls
/// at the end, with ids made of the given UUIDs.
fn assemble_output(
    items: Vec<Json>,
    reasonings: &Vec<(usize, String)>,
    calls: &Vec<DsmlToolCall>,
    rss: &Vec<String>,
    fcs: &Vec<String>,
    cids: &Vec<String>,
) -> (r: Vec<Json>)
    requires
        rss@.len() == reasonings@.len(),
        fcs@.len() == calls@.len(),
        cids@.len() == calls@.len(),
        forall|k: int|
            0 <= k < reasonings@.len() ==> (#[trigger] reasonings@[k]).0 < items@.len(),
    ensures
        items_view(r@) == assembled(
            ListScan {
                items: items_view(items@),
                calls: calls_view(calls@),
                reasonings: reasonings_view(reasonings@),
                fired: true,
            },
            views(rss@),
            views(fcs@),
            views(cids@),
        ),
{
    let ghost rv = reasonings_view(reasonings@);
    let ghost start = items_view(items@);
    let ghost count = items@.len();
    let mut out = items;
    let mut n: usize = reasonings.len();
    while n > 0
        invariant
            n <= reasonings@.len() == rss@.len(),
            count <= out@.len(),
            rv == reasonings_view(reasonings@),
            forall|k: int| 0 <= k < reasonings@.len() ==> (#[trigger] reasonings@[k]).0 < count,
            with_reasonings(start, rv, views(rss@), reasonings@.len() as int) == with_reasonings(
                items_view(out@),
                rv,
                views(rss@),
                n as int,
            ),
        decreases n,
    {
        n = n - 1;
        let at = reasonings[n].0;
        let id = concat2("rs_", rss[n].as_str());
        let item = reasoning_value(id.as_str(), reasonings[n].1.as_str());
        let ghost before = out@;
        proof {
            assert(reasonings@[n as int].0 < count);
            assert(rv[n as int] == (at as int, reasonings@[n as int].1@));
            lemma_items_view(before);
            lemma_items_view(before.insert(at as int, item));
            assert(items_view(before.insert(at as int, item)) =~= items_view(before).insert(
                at as int,
                item@,
            ));
        }
        out.insert(at, item);
    }
    let ghost base = items_view(out@);
    let ghost extra = call_items(calls_view(calls@), views(fcs@), views(cids@));
    let mut k: usize = 0;
    assert(base + extra.take(0) =~= base);
    while k < calls.len()
        invariant
            k <= calls@.len() == fcs@.len() == cids@.len(),
            extra == call_items(calls_view(calls@), views(fcs@), views(cids@)),
            items_view(out@) == base + extra.take(k as int),
        decreases calls@.len() - k,
    {
        let item_id = concat2("fc_", fcs[k].as_str());
        let call_id = concat2("call_dsml_", cids[k].as_str());
        let item = call_value(
            item_id.as_str(),
            call_id.as_str(),
            calls[k].name.as_str(),
            calls[k].arguments.as_str(),
            "completed",
        );
        proof {
            lemma_items_push(out@, item);
            assert(item@ == extra[k as int]);
            assert(base + extra.take(k + 1) =~= (base + extra.take(k as int)).push(
                extra[k as int],
            ));
        }
        out.push(item);
        k = k + 1;
    }
    assert(extra.take(k as int) =~= extra);
    out
}

/// Heal a non-streaming Responses body.
///
/// For every `message` output item the text goes through the same two stages
/// as streamed text. Healed calls are appended as `function_call` items;
/// reasoning becomes a `reasoning` item before its message. The bytes are
/// returned unchanged when nothing fires, the body is not JSON, or both gates
/// are closed.
pub fn heal_responses_body(body: &[u8], gates: HealGates) -> (out: Vec<u8>)
    ensures
        exists|rss: Seq<Seq<char>>, fcs: Seq<Seq<char>>, cids: Seq<Seq<char>>| #[trigger]
            body_healed(body@, json_parse_bytes(body@), gates, out@, rss, fcs, cids),
{
    let parsed = Json::parse_bytes(body);
    heal_parsed_body(body, parsed, gates)
}

/// [`heal_responses_body`] on a body whose JSON value was read already.
pub fn heal_parsed_body(body: &[u8], parsed: Option<Json>, gates: HealGates) -> (out: Vec<u8>)
    ensures
        exists|rss: Seq<Seq<char>>, fcs: Seq<Seq<char>>, cids: Seq<Seq<char>>| #[trigger]
            body_healed(body@, opt_json(parsed), gates, out@, rss, fcs, cids),
{
    let ghost v0 = opt_json(parsed);
    match heal_value(parsed, gates) {
        Some((healed, ids)) => {
            let text = healed.to_text();
            let out = text.as_str().as_bytes_vec();
            assert(body_healed(body@, v0, gates, out@, ids@.0, ids@.1, ids@.2));
            out
        },
        None => {
            let out = slice_to_vec(body);
            assert(body_healed(
                body@,
                v0,
                gates,
                out@,
                Seq::empty(),
                Seq::empty(),
                Seq::empty(),
            ));
            out
        },
    }
}

proof fn lemma_closed_gates_scan(items: Seq<JsonV>, gates: HealGates)
    requires
        !gates.dsml && !gates.think,
    ensures
        !scan_output(items, gates).fired,
    decreases items.len(),
{
    if items.len() > 0 {
        lemma_closed_gates_scan(items.drop_last(), gates);
        if let Some(parts) = items.last().get_arr("content"@) {
            lemma_closed_gates_parts(parts, gates, items.len() - 1);
        }
    }
}

proof fn lemma_closed_gates_parts(parts: Seq<JsonV>, gates: HealGates, at: int)
    requires
        !gates.dsml && !gates.think,
    ensures
        !scan_parts(parts, gates, at).fired,
    decreases parts.len(),
{
    if parts.len() > 0 {
        lemma_closed_gates_parts(parts.drop_last(), gates, at);
    }
}

/// The healed value of a body; none where there is nothing to heal.
fn heal_value(parsed: Option<Json>, gates: HealGates) -> (r: Option<
    (Json, Ghost<(Seq<Seq<char>>, Seq<Seq<char>>, Seq<Seq<char>>)>),
>)
    ensures
        match (r, body_scan(opt_json(parsed), gates)) {
            (None, None) => true,
            (Some((healed, ids)), Some(scan)) => {
                &&& are_uuids(ids@.0, scan.reasonings.len())
                &&& are_uuids(ids@.1, scan.calls.len())
                &&& are_uuids(ids@.2, scan.calls.len())
                &&& parsed matches Some(v) && healed@ == with_output(
                    v@,
                    assembled(scan, ids@.0, ids@.1, ids@.2),
                )
            },
            _ => false,
        },
{
    let v = match parsed {
        Some(v) => v,
        None => {
            return None;
        },
    };
    if !gates.dsml && !gates.think {
        proof {
            closed_gates_keep_the_body(Some(v@), gates);
        }
        return None;
    }
    let nested = v.get("response").is_some();
    let response = match v.get("response") {
        Some(r) => r.dup(),
        None => v.dup(),
    };
    let mut calls: Vec<DsmlToolCall> = Vec::new();
    let mut reasonings: Vec<(usize, String)> = Vec::new();
    let mut fired = false;
    let healed = match response.get_array("output") {
        Some(items) => heal_items(items, gates, &mut calls, &mut reasonings, &mut fired),
        None => {
            return None;
        },
    };
    if !fired {
        return None;
    }
    let rss = fresh_ids(reasonings.len());
    let fcs = fresh_ids(calls.len());
    let cids = fresh_ids(calls.len());
    let output = assemble_output(healed, &reasonings, &calls, &rss, &fcs, &cids);
    let response = response.set("output", Json::Arr(output));
    let whole = if nested {
        v.set("response", response)
    } else {
        response
    };
    Some((whole, Ghost((views(rss@), views(fcs@), views(cids@)))))
}

/// With both gates closed there is nothing to heal in a body: its bytes stay.
pub proof fn closed_gates_keep_the_body(v: Option<JsonV>, gates: HealGates)
    requires
        !gates.dsml && !gates.think,
    ensures
        body_scan(v, gates) is None,
{
    if let Some(v) = v {
        if let Some(items) = response_of(v).get_arr("output"@) {
            lemma_closed_gates_scan(items, gates);
        }
    }
}

/// What filters that were emptied release is nothing.
proof fn lemma_drained_tail(st: HealerV)
    ensures
        st.drained().tail_split() == SplitV::empty(),
        st.drained().tail_calls() == Seq::<CallV>::empty(),
{
    let think = ThinkState::fresh(st.think.enabled);
    let e = Seq::<char>::empty();
    assert(e + e =~= e);
    lemma_empty_push(think.enabled);
    let t = st.drained().tail_split();
    assert(t.reasoning =~= e);
    assert(t.text =~= e);
}

proof fn lemma_empty_push(enabled: bool)
    ensures
        ThinkState::fresh(enabled).emits(Seq::empty()) == SplitV::empty(),
        ThinkState::fresh(enabled).after(Seq::empty()) == ThinkState::fresh(enabled),
{
    let e = Seq::<char>::empty();
    assert(e + e =~= e);
    if enabled {
        text_without_markup_is_kept(ThinkState::fresh(true), e);
        let s = ThinkState::fresh(true).emits(e);
        assert(s.text =~= e);
        assert(ThinkState::fresh(true).after(e).pending =~= e);
    }
}

/// With both gates closed every event is forwarded verbatim, the end of the
/// stream emits nothing, and the gates stay closed.
pub proof fn closed_gates_are_identity(
    st: HealerV,
    raw: Seq<u8>,
    name: Option<Seq<char>>,
    event: Option<JsonV>,
    uuid: Seq<char>,
    fcs: Seq<Seq<char>>,
    cids: Seq<Seq<char>>,
)
    requires
        st.dsml == DsmlState::fresh(false),
        st.think == ThinkState::fresh(false),
        !st.healing_fired,
    ensures
        ({
            let step = st.push(raw, name, event, uuid, fcs, cids);
            &&& step.out == seq![raw]
            &&& step.st.dsml == DsmlState::fresh(false)
            &&& step.st.think == ThinkState::fresh(false)
            &&& !step.st.healing_fired
        }),
        st.end(uuid, fcs, cids).out == Seq::<Seq<u8>>::empty(),
{
    lemma_drained_tail(st);
    assert(st.drained() == st);
    let step = st.push(raw, name, event, uuid, fcs, cids);
    assert(step.out =~= seq![raw]);
    assert(st.end(uuid, fcs, cids).out =~= Seq::<Seq<u8>>::empty());
}

/// Ending the stream a second time emits nothing.
pub proof fn second_end_is_silent(
    st: HealerV,
    uuid: Seq<char>,
    fcs: Seq<Seq<char>>,
    cids: Seq<Seq<char>>,
    uuid2: Seq<char>,
    fcs2: Seq<Seq<char>>,
    cids2: Seq<Seq<char>>,
)
    ensures
        st.end(uuid, fcs, cids).st.end(uuid2, fcs2, cids2) == (HealStep {
            st: st.end(uuid, fcs, cids).st,
            out: Seq::empty(),
        }),
{
    if !st.finished {
        let a = HealerV { finished: true, ..st.drained() }.flush(st.tail_split(), uuid);
        lemma_inject_keeps(a.st, st.tail_calls(), fcs, cids);
    }
}

proof fn lemma_inject_keeps(
    st: HealerV,
    calls: Seq<CallV>,
    fcs: Seq<Seq<char>>,
    cids: Seq<Seq<char>>,
)
    ensures
        st.inject(calls, fcs, cids).st.finished == st.finished,
        st.inject(calls, fcs, cids).st.dsml == st.dsml,
        st.inject(calls, fcs, cids).st.think == st.think,
        st.inject(calls, fcs, cids).st.healing_fired == st.healing_fired,
        st.inject(calls, fcs, cids).st.reasoning == st.reasoning,
    decreases calls.len(),
{
    if calls.len() > 0 {
        lemma_inject_keeps(st, calls.drop_last(), fcs, cids);
    }
}

/// Nothing is emitted after a completed event: where its payload could be
/// read, the end of the stream that follows emits nothing.
pub proof fn nothing_follows_completed(
    st: HealerV,
    raw: Seq<u8>,
    v: JsonV,
    uuid: Seq<char>,
    fcs: Seq<Seq<char>>,
    cids: Seq<Seq<char>>,
    uuid2: Seq<char>,
    fcs2: Seq<Seq<char>>,
    cids2: Seq<Seq<char>>,
)
    ensures
        st.completed(raw, Some(v), uuid, fcs, cids).st.end(uuid2, fcs2, cids2).out == Seq::<
            Seq<u8>,
        >::empty(),
{
    let a = st.release(uuid);
    let last = st.completed(raw, Some(v), uuid, fcs, cids).st;
    if a.st.rewrites_completed(Some(v)) {
        second_end_is_silent(a.st, uuid, fcs, cids, uuid2, fcs2, cids2);
    } else {
        assert(last == a.st);
        assert(last.dsml == st.drained().dsml && last.think == st.drained().think);
        assert(last.drained() == last);
        lemma_drained_tail(last);
        assert(last.end(uuid2, fcs2, cids2).out =~= Seq::<Seq<u8>>::empty());
    }
}

/// While nothing has fired, echoes, done events and completed events are
/// forwarded verbatim; at most a withheld end is released before them.
pub proof fn healthy_events_stay_verbatim(
    st: HealerV,
    raw: Seq<u8>,
    n: Seq<char>,
    event: Option<JsonV>,
    uuid: Seq<char>,
    fcs: Seq<Seq<char>>,
    cids: Seq<Seq<char>>,
)
    requires
        n != "response.output_text.delta"@,
        !st.push(raw, Some(n), event, uuid, fcs, cids).st.healing_fired,
    ensures
        st.push(raw, Some(n), event, uuid, fcs, cids).out.last() == raw,
{
    let a = st.release(uuid);
    if n == "response.completed"@ && a.st.rewrites_completed(event) {
        let b = HealerV { finished: true, ..a.st.drained() }.flush(a.st.tail_split(), uuid);
        lemma_inject_keeps(b.st, a.st.tail_calls(), fcs, cids);
    }
}

/// A delta that the filters let through whole is forwarded verbatim.
pub proof fn plain_delta_stays_verbatim(st: HealerV, raw: Seq<u8>, v: JsonV, uuid: Seq<char>)
    requires
        v.get_str("delta"@) is Some,
        st.dsml.emits(v.get_str("delta"@)->0) == v.get_str("delta"@)->0,
        st.dsml.after(v.get_str("delta"@)->0).fired == st.dsml.fired,
        st.think.emits(v.get_str("delta"@)->0) == (SplitV {
            reasoning: Seq::empty(),
            text: v.get_str("delta"@)->0,
        }),
        st.think.after(v.get_str("delta"@)->0).fired == st.think.fired,
    ensures
        st.text_delta(raw, Some(v), uuid).out == seq![raw],
{
}

/// Injected items carry indexes from the base up, as long as the counter does
/// not run over.
pub proof fn injected_indexes_stay_above_base(
    st: HealerV,
    calls: Seq<CallV>,
    chunk: Seq<char>,
    uuid: Seq<char>,
    fcs: Seq<Seq<char>>,
    cids: Seq<Seq<char>>,
)
    requires
        INJECT_INDEX_BASE <= st.next_index,
        st.next_index + calls.len() < u64::MAX,
        st.reasoning matches Some((_, index)) ==> INJECT_INDEX_BASE <= index,
    ensures
        st.inject(calls, fcs, cids).st.next_index == st.next_index + calls.len(),
        st.emit_reasoning(chunk, uuid).st.next_index >= INJECT_INDEX_BASE,
        st.emit_reasoning(chunk, uuid).st.reasoning matches Some((_, index)) && INJECT_INDEX_BASE
            <= index,
    decreases calls.len(),
{
    if calls.len() > 0 {
        injected_indexes_stay_above_base(st, calls.drop_last(), chunk, uuid, fcs, cids);
    }
}

} // verus!
