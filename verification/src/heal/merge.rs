//! Merging of fragmented items: upstream runs of same-type output items
//! (`message`, `reasoning`, or `function_call` with one `call_id`) become a
//! single item.
//!
//! A run of one item is only tracked, and everything passes through verbatim.
//! Once a run has a second item it merges: later added and done events are
//! suppressed, deltas are rewritten, dones are synthesized where the run ends,
//! and the output of the completed response is rewritten.
use crate::json::{items_view, json_parse, lemma_items_push, lemma_items_view, Json, JsonV};
use crate::sse::{block, chunks, push_block, push_verbatim, verbatim};
use crate::text::{opt_text, same, views};
use crate::wire::chat::{opt_json, opt_str};
use vstd::prelude::*;

verus! {

/// The item types that can be merged.
#[derive(Debug, Clone, Copy, PartialEq, Eq, Structural)]
pub enum ItemType {
    Message,
    Reasoning,
    FunctionCall,
}

impl ItemType {
    /// The item type of that name.
    pub open spec fn named(s: Seq<char>) -> Option<ItemType> {
        if s == "message"@ {
            Some(ItemType::Message)
        } else if s == "reasoning"@ {
            Some(ItemType::Reasoning)
        } else if s == "function_call"@ {
            Some(ItemType::FunctionCall)
        } else {
            None
        }
    }

    /// The delta event that carries this item type's payload.
    pub open spec fn delta_name(self) -> Seq<char> {
        match self {
            ItemType::Message => "response.output_text.delta"@,
            ItemType::Reasoning => "response.reasoning_summary_text.delta"@,
            ItemType::FunctionCall => "response.function_call_arguments.delta"@,
        }
    }

    fn from_str(s: &str) -> (r: Option<ItemType>)
        ensures
            r == ItemType::named(s@),
    {
        if same(s, "message") {
            Some(ItemType::Message)
        } else if same(s, "reasoning") {
            Some(ItemType::Reasoning)
        } else if same(s, "function_call") {
            Some(ItemType::FunctionCall)
        } else {
            None
        }
    }

    fn delta_event(self) -> (r: &'static str)
        ensures
            r@ == self.delta_name(),
    {
        match self {
            ItemType::Message => "response.output_text.delta",
            ItemType::Reasoning => "response.reasoning_summary_text.delta",
            ItemType::FunctionCall => "response.function_call_arguments.delta",
        }
    }
}

/// A run of same-type items that is open.
pub struct RunV {
    pub item_type: ItemType,
    /// Output index, id, call id and name of the first item.
    pub start_idx: u64,
    pub start_id: Seq<char>,
    pub call_id: Option<Seq<char>>,
    pub start_name: Option<Seq<char>>,
    /// The deltas so far, from the first one on.
    pub merged: Seq<char>,
    /// Whether an added content part was forwarded.
    pub part_added: bool,
    /// Whether any event but the added items of the run came since it began.
    pub heard: bool,
    /// The ids of the items, in order.
    pub fragment_ids: Seq<Seq<char>>,
}

impl RunV {
    /// A run merges from its second item on.
    pub open spec fn merges(self) -> bool {
        self.fragment_ids.len() >= 2
    }

    /// Whether the wire owes the run a close wherever it ends. Only a message
    /// of which nothing but its added items came is owed none.
    pub open spec fn owes_close(self) -> bool {
        !(self.item_type is Message) || self.heard
    }
}

/// A merged run that has ended.
pub struct RecordV {
    pub fragment_ids: Seq<Seq<char>>,
    pub item: JsonV,
}

/// The state of a [`FragmentedItemMerger`].
pub struct MergerV {
    pub enabled: bool,
    pub run: Option<RunV>,
    pub records: Seq<RecordV>,
}

/// A state, and the chunks to forward.
pub struct MergeStep {
    pub st: MergerV,
    pub out: Seq<Seq<u8>>,
}

/// The item that a run is merged into.
pub open spec fn merged_item(run: RunV) -> JsonV {
    match run.item_type {
        ItemType::Message => JsonV::object().set("type"@, JsonV::Str("message"@)).set(
            "id"@,
            JsonV::Str(run.start_id),
        ).set("role"@, JsonV::Str("assistant"@)).set("status"@, JsonV::Str("completed"@)).set(
            "content"@,
            JsonV::one(text_part("output_text"@, run.merged)),
        ),
        ItemType::Reasoning => JsonV::object().set("type"@, JsonV::Str("reasoning"@)).set(
            "id"@,
            JsonV::Str(run.start_id),
        ).set("summary"@, JsonV::one(text_part("summary_text"@, run.merged))),
        ItemType::FunctionCall => JsonV::object().set("type"@, JsonV::Str("function_call"@)).set(
            "id"@,
            JsonV::Str(run.start_id),
        ).set(
            "call_id"@,
            JsonV::Str(
                match run.call_id {
                    Some(c) => c,
                    None => Seq::empty(),
                },
            ),
        ).set(
            "name"@,
            JsonV::Str(
                match run.start_name {
                    Some(n) => n,
                    None => "<merged>"@,
                },
            ),
        ).set("arguments"@, JsonV::Str(run.merged)).set("status"@, JsonV::Str("completed"@)),
    }
}

/// A content part of the given type that holds `text`.
pub open spec fn text_part(kind: Seq<char>, text: Seq<char>) -> JsonV {
    JsonV::object().set("type"@, JsonV::Str(kind)).set("text"@, JsonV::Str(text))
}

/// The blocks that end a merged run.
pub open spec fn run_end(run: RunV) -> Seq<Seq<u8>> {
    let done = block(
        "response.output_item.done"@,
        JsonV::object().set("type"@, JsonV::Str("response.output_item.done"@)).set(
            "output_index"@,
            JsonV::uint(run.start_idx),
        ).set("item"@, merged_item(run)),
    );
    if run.item_type is Message {
        seq![
            block(
                "response.content_part.done"@,
                JsonV::object().set("type"@, JsonV::Str("response.content_part.done"@)).set(
                    "item_id"@,
                    JsonV::Str(run.start_id),
                ).set("output_index"@, JsonV::uint(run.start_idx)).set(
                    "part"@,
                    text_part("output_text"@, run.merged),
                ),
            ),
            done,
        ]
    } else {
        seq![done]
    }
}

/// Whether an event belongs to the run: the id that it names is one of the
/// run's, or it names none.
pub open spec fn owned(run: RunV, event: Option<JsonV>) -> bool {
    match event {
        Some(v) => match named_id(v) {
            Some(id) => run.fragment_ids.contains(id),
            None => true,
        },
        None => true,
    }
}

/// The item id that an event names.
pub open spec fn named_id(v: JsonV) -> Option<Seq<char>> {
    match v.get_str("item_id"@) {
        Some(id) => Some(id),
        None => v.at("item"@).get_str("id"@),
    }
}

/// The first record at or after `k` that has a fragment of that id.
pub open spec fn record_of(records: Seq<RecordV>, id: Seq<char>, k: int) -> Option<int>
    decreases records.len() - k,
{
    if k < 0 || k >= records.len() {
        None
    } else if records[k].fragment_ids.contains(id) {
        Some(k)
    } else {
        record_of(records, id, k + 1)
    }
}

/// The output items with the fragments of every record collapsed into its
/// merged item, where the first of them stood; and which records were met.
pub open spec fn collapse(items: Seq<JsonV>, records: Seq<RecordV>) -> (Seq<JsonV>, Seq<bool>)
    decreases items.len(),
{
    if items.len() == 0 {
        (Seq::empty(), Seq::new(records.len(), |k: int| false))
    } else {
        let (out, met) = collapse(items.drop_last(), records);
        let record = match items.last().get_str("id"@) {
            Some(id) => record_of(records, id, 0),
            None => None,
        };
        match record {
            Some(k) => if met[k] {
                (out, met)
            } else {
                (out.push(records[k].item), met.update(k, true))
            },
            None => (out.push(items.last()), met),
        }
    }
}

/// The payload of a completed response with its output collapsed; none where
/// it has no output array.
pub open spec fn collapsed_payload(v: Option<JsonV>, records: Seq<RecordV>) -> Option<JsonV> {
    match v {
        Some(v) => match v.at("response"@).get_arr("output"@) {
            Some(items) => Some(
                v.set(
                    "response"@,
                    v.at("response"@).set("output"@, JsonV::Arr(collapse(items, records).0)),
                ),
            ),
            None => None,
        },
        None => None,
    }
}

impl MergerV {
    /// The state of a fresh merger.
    pub open spec fn fresh(enabled: bool) -> MergerV {
        MergerV { enabled, run: None, records: Seq::empty() }
    }

    pub open spec fn pass(self, raw: Seq<u8>) -> MergeStep {
        MergeStep { st: self, out: seq![raw] }
    }

    /// Notes for the open run that an event came.
    pub open spec fn hears(self) -> MergerV {
        match self.run {
            Some(run) => MergerV { run: Some(RunV { heard: true, ..run }), ..self },
            None => self,
        }
    }

    /// Ends the open run, if there is one; a merged run is recorded, and closed
    /// on the wire. Where an item of another type ends it (`switched`), a run
    /// that is owed no close gets none.
    pub open spec fn close_run(self, switched: bool) -> MergeStep {
        match self.run {
            Some(run) => if run.merges() {
                MergeStep {
                    st: MergerV {
                        run: None,
                        records: self.records.push(
                            RecordV { fragment_ids: run.fragment_ids, item: merged_item(run) },
                        ),
                        ..self
                    },
                    out: if !switched || run.owes_close() {
                        run_end(run)
                    } else {
                        Seq::empty()
                    },
                }
            } else {
                MergeStep { st: MergerV { run: None, ..self }, out: Seq::empty() }
            },
            None => MergeStep { st: self, out: Seq::empty() },
        }
    }

    /// An added item continues a run of its type and call id, or ends the run
    /// and starts one of its own; an item of an unknown type only ends the run.
    pub open spec fn added(self, raw: Seq<u8>, event: Option<JsonV>) -> MergeStep {
        match event {
            None => self.hears().pass(raw),
            Some(v) => {
                let item = v.at("item"@);
                let item_type = match item.get_str("type"@) {
                    Some(s) => ItemType::named(s),
                    None => None,
                };
                let closed = self.close_run(self.switches(item_type));
                match (item_type, item.get_str("id"@)) {
                    (None, _) => MergeStep { st: closed.st, out: closed.out.push(raw) },
                    (Some(_), None) => self.hears().pass(raw),
                    (Some(ty), Some(id)) => if self.continues(ty, item.get_str("call_id"@)) {
                        let run = self.run->0;
                        MergeStep {
                            st: MergerV {
                                run: Some(
                                    RunV { fragment_ids: run.fragment_ids.push(id), ..run },
                                ),
                                ..self
                            },
                            out: Seq::empty(),
                        }
                    } else {
                        let run = RunV {
                            item_type: ty,
                            start_idx: match v.at("output_index"@).as_u64() {
                                Some(n) => n,
                                None => 0,
                            },
                            start_id: id,
                            call_id: item.get_str("call_id"@),
                            start_name: item.get_str("name"@),
                            merged: Seq::empty(),
                            part_added: false,
                            heard: false,
                            fragment_ids: seq![id],
                        };
                        MergeStep {
                            st: MergerV { run: Some(run), ..closed.st },
                            out: closed.out.push(raw),
                        }
                    },
                }
            },
        }
    }

    /// Whether an item of that type is of another type than the open run.
    pub open spec fn switches(self, ty: Option<ItemType>) -> bool {
        match self.run {
            Some(run) => ty != Some(run.item_type),
            None => false,
        }
    }

    /// Whether an item of that type and call id continues the open run.
    pub open spec fn continues(self, ty: ItemType, call_id: Option<Seq<char>>) -> bool {
        match self.run {
            Some(run) => run.item_type == ty && run.call_id == call_id,
            None => false,
        }
    }

    /// A delta of the run's type is added to the run; once the run merges, the
    /// delta names the run's first item.
    pub open spec fn delta(
        self,
        raw: Seq<u8>,
        name: Seq<char>,
        event: Option<JsonV>,
    ) -> MergeStep {
        match (self.run, event) {
            (Some(run), Some(v)) => if name != run.item_type.delta_name() {
                self.pass(raw)
            } else {
                let run2 = RunV {
                    merged: match v.get_str("delta"@) {
                        Some(d) => run.merged + d,
                        None => run.merged,
                    },
                    ..run
                };
                MergeStep {
                    st: MergerV { run: Some(run2), ..self },
                    out: if run.merges() {
                        seq![
                            block(
                                name,
                                v.set("item_id"@, JsonV::Str(run.start_id)).set(
                                    "output_index"@,
                                    JsonV::uint(run.start_idx),
                                ),
                            ),
                        ]
                    } else {
                        seq![raw]
                    },
                }
            },
            _ => self.pass(raw),
        }
    }

    /// Of the added content parts of a merging run only the first is forwarded.
    pub open spec fn part(self, raw: Seq<u8>, event: Option<JsonV>) -> MergeStep {
        match self.run {
            Some(run) => if !owned(run, event) {
                self.pass(raw)
            } else if run.merges() && run.part_added {
                MergeStep { st: self, out: Seq::empty() }
            } else {
                MergeStep {
                    st: MergerV { run: Some(RunV { part_added: true, ..run }), ..self },
                    out: seq![raw],
                }
            },
            None => self.pass(raw),
        }
    }

    /// The done events of a merging run are suppressed.
    pub open spec fn done(self, raw: Seq<u8>, event: Option<JsonV>) -> MergeStep {
        match self.run {
            Some(run) => if run.merges() && owned(run, event) {
                MergeStep { st: self, out: Seq::empty() }
            } else {
                self.pass(raw)
            },
            None => self.pass(raw),
        }
    }

    /// A completed response ends the run; its output is rewritten only where
    /// some run was merged.
    pub open spec fn completed(self, raw: Seq<u8>, event: Option<JsonV>) -> MergeStep {
        let closed = self.close_run(false);
        let last = if closed.st.records.len() == 0 {
            raw
        } else {
            match collapsed_payload(event, closed.st.records) {
                Some(v) => block("response.completed"@, v),
                None => raw,
            }
        };
        MergeStep { st: closed.st, out: closed.out.push(last) }
    }

    /// What an event of that name does, where `event` is its payload as JSON.
    pub open spec fn push(
        self,
        raw: Seq<u8>,
        name: Option<Seq<char>>,
        event: Option<JsonV>,
    ) -> MergeStep {
        if !self.enabled {
            self.pass(raw)
        } else if name == Some("response.output_item.added"@) {
            self.added(raw, event)
        } else {
            self.hears().push_other(raw, name, event)
        }
    }

    /// What an event that adds no item does.
    pub open spec fn push_other(
        self,
        raw: Seq<u8>,
        name: Option<Seq<char>>,
        event: Option<JsonV>,
    ) -> MergeStep {
        match name {
            None => self.pass(raw),
            Some(n) => if n == "response.output_text.delta"@ || n
                == "response.reasoning_summary_text.delta"@ || n
                == "response.function_call_arguments.delta"@ {
                self.delta(raw, n, event)
            } else if n == "response.content_part.added"@ {
                self.part(raw, event)
            } else if n == "response.output_text.done"@ || n == "response.content_part.done"@ || n
                == "response.output_item.done"@ {
                self.done(raw, event)
            } else if n == "response.completed"@ {
                self.completed(raw, event)
            } else {
                self.pass(raw)
            },
        }
    }

    /// Whether no run has merged.
    pub open spec fn untouched(self) -> bool {
        self.records.len() == 0 && (self.run matches Some(run) ==> !run.merges())
    }
}

/// A disabled merger forwards every event verbatim and keeps its state.
pub proof fn disabled_merger_is_identity(
    st: MergerV,
    raw: Seq<u8>,
    name: Option<Seq<char>>,
    event: Option<JsonV>,
)
    requires
        !st.enabled,
    ensures
        st.push(raw, name, event) == (MergeStep { st, out: seq![raw] }),
{
}

/// The wire is touched only once some run has merged: as long as none has,
/// every event is forwarded verbatim.
pub proof fn healthy_stream_is_identity(
    st: MergerV,
    raw: Seq<u8>,
    name: Option<Seq<char>>,
    event: Option<JsonV>,
)
    requires
        st.untouched(),
        st.push(raw, name, event).st.untouched(),
        st.run matches Some(run) ==> run.fragment_ids.len() >= 1,
    ensures
        st.push(raw, name, event).out == seq![raw],
{
    let step = st.push(raw, name, event);
    assert(step.out =~= seq![raw]);
}

/// Whether an event is a done event of an item or of its text.
pub open spec fn is_done(name: Seq<char>) -> bool {
    name == "response.output_text.done"@ || name == "response.content_part.done"@ || name
        == "response.output_item.done"@
}

/// A done event that a merging run suppressed is replaced: whatever ends the
/// run, it is closed on the wire.
pub proof fn withheld_done_is_replaced(
    st: MergerV,
    raw: Seq<u8>,
    name: Seq<char>,
    event: Option<JsonV>,
    switched: bool,
)
    requires
        st.enabled,
        is_done(name),
        st.run matches Some(run) && run.merges() && owned(run, event),
    ensures
        st.push(raw, Some(name), event).out == Seq::<Seq<u8>>::empty(),
        ({
            let after = st.push(raw, Some(name), event).st;
            after.run is Some && after.close_run(switched).out == run_end(after.run->0)
        }),
{
    reveal_strlit("response.output_text.done");
    reveal_strlit("response.content_part.done");
    reveal_strlit("response.output_item.done");
    reveal_strlit("response.output_item.added");
    reveal_strlit("response.content_part.added");
    reveal_strlit("response.output_text.delta");
    reveal_strlit("response.reasoning_summary_text.delta");
    reveal_strlit("response.function_call_arguments.delta");
    assert("response.output_text.done"@.len() == 25);
    assert("response.content_part.done"@.len() == 26);
    assert("response.output_item.done"@.len() == 25);
    assert("response.output_item.added"@.len() == 26);
    assert("response.content_part.added"@.len() == 27);
    assert("response.output_text.delta"@.len() == 26);
    assert("response.reasoning_summary_text.delta"@.len() == 37);
    assert("response.function_call_arguments.delta"@.len() == 38);
    assert("response.content_part.done"@[9] == 'c');
    assert("response.output_item.added"@[9] == 'o');
    assert("response.output_text.delta"@[9] == 'o');
}

/// A merged run is closed on the wire wherever it ends, unless an item of
/// another type ends a message of which nothing but its added items came.
pub proof fn merged_runs_are_closed(st: MergerV, run: RunV, switched: bool)
    requires
        st.run == Some(run),
        run.merges(),
        !switched || !(run.item_type is Message) || run.heard,
    ensures
        st.close_run(switched).out == run_end(run),
{
}

#[derive(Debug)]
struct RunState {
    item_type: ItemType,
    start_idx: u64,
    start_id: String,
    call_id: Option<String>,
    start_name: Option<String>,
    merged: String,
    part_added_emitted: bool,
    heard: bool,
    fragment_ids: Vec<String>,
}

impl View for RunState {
    type V = RunV;

    closed spec fn view(&self) -> RunV {
        RunV {
            item_type: self.item_type,
            start_idx: self.start_idx,
            start_id: self.start_id@,
            call_id: opt_str(self.call_id),
            start_name: opt_str(self.start_name),
            merged: self.merged@,
            part_added: self.part_added_emitted,
            heard: self.heard,
            fragment_ids: views(self.fragment_ids@),
        }
    }
}

#[derive(Debug)]
struct MergedRunRecord {
    fragment_ids: Vec<String>,
    item: Json,
}

impl View for MergedRunRecord {
    type V = RecordV;

    closed spec fn view(&self) -> RecordV {
        RecordV { fragment_ids: views(self.fragment_ids@), item: self.item@ }
    }
}

spec fn records_view(s: Seq<MergedRunRecord>) -> Seq<RecordV> {
    Seq::new(s.len(), |i: int| s[i]@)
}

/// Collapses fragmented upstream items, event by event.
#[derive(Debug)]
pub struct FragmentedItemMerger {
    enabled: bool,
    run: Option<RunState>,
    merged_runs: Vec<MergedRunRecord>,
}

impl View for FragmentedItemMerger {
    type V = MergerV;

    closed spec fn view(&self) -> MergerV {
        MergerV {
            enabled: self.enabled,
            run: match self.run {
                Some(r) => Some(r@),
                None => None,
            },
            records: records_view(self.merged_runs@),
        }
    }
}

/// Whether `ids` holds `id`.
fn has_id(ids: &Vec<String>, id: &str) -> (r: bool)
    ensures
        r == views(ids@).contains(id@),
{
    let mut i: usize = 0;
    while i < ids.len()
        invariant
            i <= ids@.len(),
            forall|k: int| 0 <= k < i ==> #[trigger] views(ids@)[k] != id@,
        decreases ids@.len() - i,
    {
        if same(ids[i].as_str(), id) {
            assert(views(ids@)[i as int] == id@);
            return true;
        }
        i = i + 1;
    }
    false
}

/// An owned copy of an optional string.
fn owned_str(s: Option<&str>) -> (r: Option<String>)
    ensures
        match s {
            Some(x) => opt_str(r) == Some(x@),
            None => r is None,
        },
{
    match s {
        Some(x) => Some(x.to_owned()),
        None => None,
    }
}

/// Whether two optional strings are equal.
fn same_opt(a: &Option<String>, b: &Option<String>) -> (r: bool)
    ensures
        r == (opt_str(*a) == opt_str(*b)),
{
    match (a, b) {
        (Some(x), Some(y)) => same(x.as_str(), y.as_str()),
        (None, None) => true,
        _ => false,
    }
}

fn part_json(kind: &str, text: &str) -> (r: Json)
    ensures
        r@ == text_part(kind@, text@),
{
    Json::object().set("type", Json::str(kind)).set("text", Json::str(text))
}

impl RunState {
    fn is_merging(&self) -> (r: bool)
        ensures
            r == self@.merges(),
    {
        self.fragment_ids.len() >= 2
    }

    fn is_owed_close(&self) -> (r: bool)
        ensures
            r == self@.owes_close(),
    {
        match self.item_type {
            ItemType::Message => self.heard,
            _ => true,
        }
    }

    /// The merged item in the canonical item shape.
    fn synthesize_merged_item_value(&self) -> (r: Json)
        ensures
            r@ == merged_item(self@),
    {
        match self.item_type {
            ItemType::Message => Json::object().set("type", Json::str("message")).set(
                "id",
                Json::str(self.start_id.as_str()),
            ).set("role", Json::str("assistant")).set("status", Json::str("completed")).set(
                "content",
                Json::one(part_json("output_text", self.merged.as_str())),
            ),
            ItemType::Reasoning => Json::object().set("type", Json::str("reasoning")).set(
                "id",
                Json::str(self.start_id.as_str()),
            ).set("summary", Json::one(part_json("summary_text", self.merged.as_str()))),
            ItemType::FunctionCall => {
                let call_id = match &self.call_id {
                    Some(c) => c.clone(),
                    None => String::new(),
                };
                let name = match &self.start_name {
                    Some(n) => n.clone(),
                    None => "<merged>".to_owned(),
                };
                Json::object().set("type", Json::str("function_call")).set(
                    "id",
                    Json::str(self.start_id.as_str()),
                ).set("call_id", Json::Str(call_id)).set("name", Json::Str(name)).set(
                    "arguments",
                    Json::str(self.merged.as_str()),
                ).set("status", Json::str("completed"))
            },
        }
    }

    /// The blocks that close a merged run.
    fn flush_run_synthesis(&self) -> (r: Vec<Vec<u8>>)
        ensures
            chunks(r@) == run_end(self@),
    {
        let mut out: Vec<Vec<u8>> = Vec::new();
        if let ItemType::Message = self.item_type {
            let part = Json::object().set("type", Json::str("response.content_part.done")).set(
                "item_id",
                Json::str(self.start_id.as_str()),
            ).set("output_index", Json::uint(self.start_idx)).set(
                "part",
                part_json("output_text", self.merged.as_str()),
            );
            push_block(&mut out, "response.content_part.done", &part);
        }
        let done = Json::object().set("type", Json::str("response.output_item.done")).set(
            "output_index",
            Json::uint(self.start_idx),
        ).set("item", self.synthesize_merged_item_value());
        push_block(&mut out, "response.output_item.done", &done);
        assert(chunks(out@) =~= run_end(self@));
        out
    }
}

/// Whether an event belongs to the run.
fn event_owned_by_run(run: &RunState, event: &Option<Json>) -> (r: bool)
    ensures
        r == owned(run@, opt_json(*event)),
{
    match event {
        Some(v) => {
            let id = match v.get_str("item_id") {
                Some(id) => Some(id),
                None => match v.get("item") {
                    Some(item) => item.get_str("id"),
                    None => None,
                },
            };
            match id {
                Some(id) => has_id(&run.fragment_ids, id),
                None => true,
            }
        },
        None => true,
    }
}

impl FragmentedItemMerger {
    /// A merger that merges when `enabled`, or forwards everything verbatim.
    pub fn new(enabled: bool) -> (r: FragmentedItemMerger)
        ensures
            r@ == MergerV::fresh(enabled),
    {
        let r = FragmentedItemMerger { enabled, run: None, merged_runs: Vec::new() };
        assert(records_view(r.merged_runs@) =~= Seq::<RecordV>::empty());
        r
    }

    /// Process one upstream event; returns the chunks to forward.
    pub fn push_event(&mut self, raw: &[u8], event: Option<&str>, data: &str) -> (out: Vec<Vec<u8>>)
        ensures
            (MergeStep { st: final(self)@, out: chunks(out@) }) == old(self)@.push(
                raw@,
                opt_text(event),
                json_parse(data@),
            ),
    {
        let parsed = Json::parse(data);
        self.push_parsed(raw, event, parsed)
    }

    /// [`Self::push_event`] on a payload that was read already.
    pub fn push_parsed(
        &mut self,
        raw: &[u8],
        event: Option<&str>,
        payload: Option<Json>,
    ) -> (out: Vec<Vec<u8>>)
        ensures
            (MergeStep { st: final(self)@, out: chunks(out@) }) == old(self)@.push(
                raw@,
                opt_text(event),
                opt_json(payload),
            ),
    {
        if !self.enabled {
            return verbatim(raw);
        }
        if let Some(name) = event {
            if same(name, "response.output_item.added") {
                return self.on_added(raw, payload);
            }
        }
        self.note_event();
        let name = match event {
            Some(e) => e,
            None => {
                return verbatim(raw);
            },
        };
        if same(name, "response.output_text.delta") || same(
            name,
            "response.reasoning_summary_text.delta",
        ) || same(name, "response.function_call_arguments.delta") {
            self.on_delta(raw, name, payload)
        } else if same(name, "response.content_part.added") {
            self.on_content_part_added(raw, payload)
        } else if same(name, "response.output_text.done") || same(
            name,
            "response.content_part.done",
        ) || same(name, "response.output_item.done") {
            self.on_done(raw, payload)
        } else if same(name, "response.completed") {
            self.on_completed(raw, payload)
        } else {
            verbatim(raw)
        }
    }

    /// Notes for the open run that an event came.
    fn note_event(&mut self)
        ensures
            final(self)@ == old(self)@.hears(),
    {
        if let Some(run) = self.run.take() {
            let mut run = run;
            run.heard = true;
            self.run = Some(run);
        }
    }

    /// Whether an item of that type is of another type than the open run.
    fn is_switch(&self, ty: Option<ItemType>) -> (r: bool)
        ensures
            r == self@.switches(ty),
    {
        match (&self.run, ty) {
            (Some(run), Some(ty)) => run.item_type != ty,
            (Some(_), None) => true,
            (None, _) => false,
        }
    }

    /// Ends the open run; a merged one is recorded and, where that is owed,
    /// closed on the wire.
    fn close_run(&mut self, switched: bool) -> (out: Vec<Vec<u8>>)
        ensures
            (MergeStep { st: final(self)@, out: chunks(out@) }) == old(self)@.close_run(switched),
    {
        let mut out: Vec<Vec<u8>> = Vec::new();
        assert(chunks(out@) =~= Seq::<Seq<u8>>::empty());
        if let Some(run) = self.run.take() {
            if run.is_merging() {
                if !switched || run.is_owed_close() {
                    out = run.flush_run_synthesis();
                }
                let record = MergedRunRecord {
                    item: run.synthesize_merged_item_value(),
                    fragment_ids: run.fragment_ids,
                };
                let ghost before = self.merged_runs@;
                self.merged_runs.push(record);
                assert(records_view(self.merged_runs@) =~= records_view(before).push(record@));
            }
        }
        out
    }

    fn on_added(&mut self, raw: &[u8], payload: Option<Json>) -> (out: Vec<Vec<u8>>)
        ensures
            (MergeStep { st: final(self)@, out: chunks(out@) }) == old(self)@.added(
                raw@,
                opt_json(payload),
            ),
    {
        let v = match payload {
            Some(v) => v,
            None => {
                self.note_event();
                return verbatim(raw);
            },
        };
        let null = Json::Null;
        let item = match v.get("item") {
            Some(i) => i,
            None => &null,
        };
        let item_type = match item.get_str("type") {
            Some(s) => ItemType::from_str(s),
            None => None,
        };
        let item_type = match item_type {
            Some(t) => t,
            None => {
                let switched = self.is_switch(None);
                let mut out = self.close_run(switched);
                push_verbatim(&mut out, raw);
                return out;
            },
        };
        let id = match item.get_str("id") {
            Some(id) => id.to_owned(),
            None => {
                self.note_event();
                return verbatim(raw);
            },
        };
        let call_id = owned_str(item.get_str("call_id"));
        if let Some(run) = self.run.take() {
            if run.item_type == item_type && same_opt(&run.call_id, &call_id) {
                let mut run = run;
                let ghost before = run.fragment_ids@;
                run.fragment_ids.push(id);
                assert(views(run.fragment_ids@) =~= views(before).push(id@));
                self.run = Some(run);
                let out: Vec<Vec<u8>> = Vec::new();
                assert(chunks(out@) =~= Seq::<Seq<u8>>::empty());
                return out;
            }
            self.run = Some(run);
        }
        let start_idx = match v.get("output_index") {
            Some(n) => match n.as_u64() {
                Some(n) => n,
                None => 0,
            },
            None => 0,
        };
        let mut ids: Vec<String> = Vec::new();
        ids.push(id.clone());
        assert(views(ids@) =~= seq![id@]);
        let start_name = owned_str(item.get_str("name"));
        let run = RunState {
            item_type,
            start_idx,
            start_id: id,
            call_id,
            start_name,
            merged: String::new(),
            part_added_emitted: false,
            heard: false,
            fragment_ids: ids,
        };
        let switched = self.is_switch(Some(item_type));
        let mut out = self.close_run(switched);
        push_verbatim(&mut out, raw);
        self.run = Some(run);
        out
    }

    fn on_delta(&mut self, raw: &[u8], name: &str, payload: Option<Json>) -> (out: Vec<Vec<u8>>)
        ensures
            (MergeStep { st: final(self)@, out: chunks(out@) }) == old(self)@.delta(
                raw@,
                name@,
                opt_json(payload),
            ),
    {
        let v = match payload {
            Some(v) => v,
            None => {
                return verbatim(raw);
            },
        };
        let run = match self.run.take() {
            Some(run) => run,
            None => {
                return verbatim(raw);
            },
        };
        if !same(name, run.item_type.delta_event()) {
            self.run = Some(run);
            return verbatim(raw);
        }
        let mut run = run;
        if let Some(d) = v.get_str("delta") {
            run.merged.append(d);
        }
        let out = if run.is_merging() {
            let payload = v.set("item_id", Json::str(run.start_id.as_str())).set(
                "output_index",
                Json::uint(run.start_idx),
            );
            let mut out: Vec<Vec<u8>> = Vec::new();
            push_block(&mut out, name, &payload);
            assert(chunks(out@) =~= seq![block(name@, payload@)]);
            out
        } else {
            verbatim(raw)
        };
        self.run = Some(run);
        out
    }

    fn on_content_part_added(&mut self, raw: &[u8], payload: Option<Json>) -> (out: Vec<Vec<u8>>)
        ensures
            (MergeStep { st: final(self)@, out: chunks(out@) }) == old(self)@.part(
                raw@,
                opt_json(payload),
            ),
    {
        let run = match self.run.take() {
            Some(run) => run,
            None => {
                return verbatim(raw);
            },
        };
        if !event_owned_by_run(&run, &payload) {
            self.run = Some(run);
            return verbatim(raw);
        }
        if run.is_merging() && run.part_added_emitted {
            self.run = Some(run);
            let out: Vec<Vec<u8>> = Vec::new();
            assert(chunks(out@) =~= Seq::<Seq<u8>>::empty());
            return out;
        }
        let mut run = run;
        run.part_added_emitted = true;
        self.run = Some(run);
        verbatim(raw)
    }

    fn on_done(&mut self, raw: &[u8], payload: Option<Json>) -> (out: Vec<Vec<u8>>)
        ensures
            (MergeStep { st: final(self)@, out: chunks(out@) }) == old(self)@.done(
                raw@,
                opt_json(payload),
            ),
    {
        let run = match self.run.take() {
            Some(run) => run,
            None => {
                return verbatim(raw);
            },
        };
        let suppressed = run.is_merging() && event_owned_by_run(&run, &payload);
        self.run = Some(run);
        if suppressed {
            let out: Vec<Vec<u8>> = Vec::new();
            assert(chunks(out@) =~= Seq::<Seq<u8>>::empty());
            return out;
        }
        verbatim(raw)
    }

    /// The first record that has a fragment of that id.
    fn find_record(&self, id: &str) -> (r: Option<usize>)
        ensures
            match r {
                Some(k) => record_of(self@.records, id@, 0) == Some(k as int) && k
                    < self.merged_runs@.len(),
                None => record_of(self@.records, id@, 0) is None,
            },
    {
        let mut k: usize = 0;
        while k < self.merged_runs.len()
            invariant
                k <= self.merged_runs@.len(),
                record_of(self@.records, id@, 0) == record_of(self@.records, id@, k as int),
            decreases self.merged_runs@.len() - k,
        {
            if has_id(&self.merged_runs[k].fragment_ids, id) {
                return Some(k);
            }
            k = k + 1;
        }
        None
    }

    /// The output items with the fragments of merged runs collapsed.
    fn collapse_output(&self, items: &Vec<Json>) -> (r: Vec<Json>)
        ensures
            items_view(r@) == collapse(items_view(items@), self@.records).0,
    {
        let mut out: Vec<Json> = Vec::new();
        let mut met: Vec<bool> = Vec::new();
        let mut k: usize = 0;
        while k < self.merged_runs.len()
            invariant
                k <= self.merged_runs@.len(),
                met@ == Seq::new(k as nat, |i: int| false),
            decreases self.merged_runs@.len() - k,
        {
            met.push(false);
            assert(met@ =~= Seq::new((k + 1) as nat, |i: int| false));
            k = k + 1;
        }
        let ghost all = items_view(items@);
        proof {
            lemma_items_view(items@);
        }
        let mut i: usize = 0;
        assert(all.take(0) =~= Seq::<JsonV>::empty());
        assert(met@ =~= collapse(all.take(0), self@.records).1);
        while i < items.len()
            invariant
                i <= items@.len(),
                all == items_view(items@),
                all.len() == items@.len(),
                met@.len() == self.merged_runs@.len(),
                (items_view(out@), met@) == collapse(all.take(i as int), self@.records),
            decreases items@.len() - i,
        {
            proof {
                lemma_items_view(items@);
                assert(all.take(i + 1).drop_last() =~= all.take(i as int));
                assert(all.take(i + 1).last() == items@[i as int]@);
            }
            let record = match items[i].get_str("id") {
                Some(id) => self.find_record(id),
                None => None,
            };
            match record {
                Some(k) => {
                    if !met[k] {
                        let copy = self.merged_runs[k].item.dup();
                        proof {
                            lemma_items_push(out@, copy);
                        }
                        out.push(copy);
                        met.set(k, true);
                    }
                },
                None => {
                    let copy = items[i].dup();
                    proof {
                        lemma_items_push(out@, copy);
                    }
                    out.push(copy);
                },
            }
            i = i + 1;
        }
        assert(all.take(i as int) =~= all);
        out
    }

    /// Ends the open run behind a completed response, and rewrites its output
    /// where some run was merged.
    pub fn on_completed(&mut self, raw: &[u8], payload: Option<Json>) -> (out: Vec<Vec<u8>>)
        ensures
            (MergeStep { st: final(self)@, out: chunks(out@) }) == old(self)@.completed(
                raw@,
                opt_json(payload),
            ),
    {
        let mut out = self.close_run(false);
        if self.merged_runs.len() == 0 {
            push_verbatim(&mut out, raw);
            return out;
        }
        if let Some(v) = payload {
            let collapsed = match v.get("response") {
                Some(response) => match response.get_array("output") {
                    Some(items) => Some(
                        response.dup().set("output", Json::Arr(self.collapse_output(items))),
                    ),
                    None => None,
                },
                None => None,
            };
            if let Some(response) = collapsed {
                let rewritten = v.set("response", response);
                push_block(&mut out, "response.completed", &rewritten);
                return out;
            }
        }
        push_verbatim(&mut out, raw);
        out
    }

    /// Forgets everything at the end of the stream; nothing is emitted.
    pub fn finish(&mut self) -> (out: Vec<Vec<u8>>)
        ensures
            chunks(out@) == Seq::<Seq<u8>>::empty(),
            final(self)@ == MergerV::fresh(old(self)@.enabled),
    {
        self.run = None;
        self.merged_runs.clear();
        assert(records_view(self.merged_runs@) =~= Seq::<RecordV>::empty());
        let out: Vec<Vec<u8>> = Vec::new();
        assert(chunks(out@) =~= Seq::<Seq<u8>>::empty());
        out
    }
}

} // verus!
