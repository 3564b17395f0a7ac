use vstd::prelude::*;

use std::collections::BTreeMap;
use vstd::std_specs::iter::IteratorSpec;

use crate::order::{lemma_increasing_keys, lemma_sorted_unique, sorted_keys, strictly_increasing};
use crate::text::same_text;
use crate::chunk::{ChatChunkChoice, ChatChunkDelta, ChatChunkToolCallDelta};
use crate::events::{
    lemma_push_models, assistant_message, checked, outgoing_models, plain, ContentItem, EventModel, ItemModel,
    MessagePhase, Outgoing, OutgoingModel, ResponseEvent, ResponseItem,
};

verus! {

broadcast use vstd::std_specs::btree::group_btree_axioms;

/// A tool call assembled from the fragments that share its index.
#[derive(Debug)]
pub struct AccumulatedToolCall {
    pub id: String,
    pub name: String,
    pub arguments: String,
}

/// Abstract value of an [`AccumulatedToolCall`].
pub struct ToolCallModel {
    pub id: Seq<char>,
    pub name: Seq<char>,
    pub arguments: Seq<char>,
}

impl View for AccumulatedToolCall {
    type V = ToolCallModel;

    open spec fn view(&self) -> ToolCallModel {
        ToolCallModel { id: self.id@, name: self.name@, arguments: self.arguments@ }
    }
}

/// What has been received so far for one choice: its text and its tool calls by index.
#[derive(Debug)]
pub struct DeltaAccumulator {
    pub content: String,
    pub tool_calls: BTreeMap<i32, AccumulatedToolCall>,
}

/// Abstract value of a [`DeltaAccumulator`].
pub struct ChoiceModel {
    pub content: Seq<char>,
    pub tool_calls: Map<i32, ToolCallModel>,
}

impl View for DeltaAccumulator {
    type V = ChoiceModel;

    open spec fn view(&self) -> ChoiceModel {
        ChoiceModel {
            content: self.content@,
            tool_calls: self.tool_calls@.map_values(|t: AccumulatedToolCall| t@),
        }
    }
}

pub open spec fn empty_tool_call() -> ToolCallModel {
    ToolCallModel { id: Seq::empty(), name: Seq::empty(), arguments: Seq::empty() }
}

pub open spec fn empty_choice() -> ChoiceModel {
    ChoiceModel { content: Seq::empty(), tool_calls: Map::empty() }
}

/// The tool call under `index`, or an empty one where none is.
pub open spec fn tool_call_at(m: Map<i32, ToolCallModel>, index: i32) -> ToolCallModel {
    if m.contains_key(index) {
        m[index]
    } else {
        empty_tool_call()
    }
}

/// Folds one tool-call fragment into the calls: the id is replaced, name and
/// arguments are appended; each arguments fragment is forwarded as a delta of the call.
pub open spec fn tool_call_step(m: Map<i32, ToolCallModel>, tc: ChatChunkToolCallDelta) -> (
    Map<i32, ToolCallModel>,
    Seq<OutgoingModel>,
) {
    let cur = tool_call_at(m, tc.index);
    let with_id = match tc.id {
        Some(id) => ToolCallModel { id: id@, name: cur.name, arguments: cur.arguments },
        None => cur,
    };
    match tc.function {
        None => (m.insert(tc.index, with_id), seq![]),
        Some(f) => {
            let with_name = match f.name {
                Some(n) => ToolCallModel {
                    id: with_id.id,
                    name: with_id.name + n@,
                    arguments: with_id.arguments,
                },
                None => with_id,
            };
            match f.arguments {
                None => (m.insert(tc.index, with_name), seq![]),
                Some(a) => (
                    m.insert(
                        tc.index,
                        ToolCallModel {
                            id: with_name.id,
                            name: with_name.name,
                            arguments: with_name.arguments + a@,
                        },
                    ),
                    seq![
                        checked(
                            EventModel::ToolCallInputDelta {
                                item_id: with_name.id,
                                call_id: Some(with_name.id),
                                delta: a@,
                            },
                        ),
                    ],
                ),
            }
        },
    }
}

/// Folds the fragments in order.
pub open spec fn tool_calls_step(
    m: Map<i32, ToolCallModel>,
    tcs: Seq<ChatChunkToolCallDelta>,
) -> (Map<i32, ToolCallModel>, Seq<OutgoingModel>)
    decreases tcs.len(),
{
    if tcs.len() == 0 {
        (m, seq![])
    } else {
        let (m1, e1) = tool_calls_step(m, tcs.drop_last());
        let (m2, e2) = tool_call_step(m1, tcs.last());
        (m2, e1 + e2)
    }
}

fn new_tool_call() -> (t: AccumulatedToolCall)
    ensures
        t@ == empty_tool_call(),
{
    AccumulatedToolCall { id: String::new(), name: String::new(), arguments: String::new() }
}

proof fn lemma_map_values_insert(
    m: Map<i32, AccumulatedToolCall>,
    k: i32,
    t: AccumulatedToolCall,
)
    ensures
        m.insert(k, t).map_values(|x: AccumulatedToolCall| x@) =~= m.map_values(
            |x: AccumulatedToolCall| x@,
        ).insert(k, t@),
{
}

/// Folds one tool-call fragment into `tool_calls`, forwarding its arguments to `out`.
fn apply_tool_call(
    tool_calls: &mut BTreeMap<i32, AccumulatedToolCall>,
    tc: &ChatChunkToolCallDelta,
    out: &mut Vec<Outgoing>,
)
    ensures
        ({
            let (m, e) = tool_call_step(
                old(tool_calls)@.map_values(|x: AccumulatedToolCall| x@),
                *tc,
            );
            &&& final(tool_calls)@.map_values(|x: AccumulatedToolCall| x@) == m
            &&& outgoing_models(final(out)@) == outgoing_models(old(out)@) + e
        }),
{
    let ghost m0 = tool_calls@.map_values(|x: AccumulatedToolCall| x@);
    let mut t = match tool_calls.remove(&tc.index) {
        Some(t) => t,
        None => new_tool_call(),
    };
    assert(t@ == tool_call_at(m0, tc.index));
    if let Some(id) = &tc.id {
        t.id = id.clone();
    }
    if let Some(f) = &tc.function {
        if let Some(n) = &f.name {
            t.name.append(n.as_str());
        }
        if let Some(a) = &f.arguments {
            t.arguments.append(a.as_str());
            let o = Outgoing {
                item: Ok(
                    ResponseEvent::ToolCallInputDelta {
                        item_id: t.id.clone(),
                        call_id: Some(t.id.clone()),
                        delta: a.clone(),
                    },
                ),
                stop_if_undelivered: true,
            };
            proof {
                lemma_push_models(out@, o);
            }
            out.push(o);
        }
    }
    let ghost removed = tool_calls@;
    proof {
        lemma_map_values_insert(removed, tc.index, t);
        assert(removed.map_values(|x: AccumulatedToolCall| x@).insert(tc.index, t@) =~= m0.insert(
            tc.index,
            t@,
        ));
    }
    tool_calls.insert(tc.index, t);
}

/// Folds the fragments into `tool_calls` in order, forwarding their arguments to `out`.
fn apply_tool_calls(
    tool_calls: &mut BTreeMap<i32, AccumulatedToolCall>,
    tcs: &Vec<ChatChunkToolCallDelta>,
    out: &mut Vec<Outgoing>,
)
    ensures
        ({
            let (m, e) = tool_calls_step(
                old(tool_calls)@.map_values(|x: AccumulatedToolCall| x@),
                tcs@,
            );
            &&& final(tool_calls)@.map_values(|x: AccumulatedToolCall| x@) == m
            &&& outgoing_models(final(out)@) == outgoing_models(old(out)@) + e
        }),
{
    let ghost m0 = tool_calls@.map_values(|x: AccumulatedToolCall| x@);
    let ghost out0 = outgoing_models(out@);
    assert(tcs@.take(0).len() == 0);
    for k in 0..tcs.len()
        invariant
            ({
                let (m, e) = tool_calls_step(m0, tcs@.take(k as int));
                &&& tool_calls@.map_values(|x: AccumulatedToolCall| x@) == m
                &&& outgoing_models(out@) == out0 + e
            }),
    {
        assert(tcs@.take(k + 1).drop_last() =~= tcs@.take(k as int));
        assert(tcs@.take(k + 1).last() == tcs@[k as int]);
        apply_tool_call(tool_calls, &tcs[k], out);
        proof {
            let (m1, e1) = tool_calls_step(m0, tcs@.take(k as int));
            let (m2, e2) = tool_call_step(m1, tcs@[k as int]);
            assert(outgoing_models(out@) =~= out0 + (e1 + e2));
        }
    }
    assert(tcs@.take(tcs@.len() as int) =~= tcs@);
}

/// The message event that carries `content`, if there is any content.
pub open spec fn text_events(content: Seq<char>) -> Seq<OutgoingModel> {
    if content.len() > 0 {
        seq![plain(EventModel::OutputItemDone(assistant_message(content)))]
    } else {
        seq![]
    }
}

/// Folds the delta of a choice: reasoning first flushes the text received so far as a
/// message (if there is any) and empties it, then is forwarded; tool-call fragments are
/// folded; text is appended and forwarded.
pub open spec fn delta_step(acc: ChoiceModel, d: ChatChunkDelta) -> (ChoiceModel, Seq<OutgoingModel>) {
    let (kept, reasoning_events) = match d.reasoning_content {
        Some(r) => (
            Seq::empty(),
            text_events(acc.content) + seq![
                checked(EventModel::ReasoningContentDelta { delta: r@, content_index: 0 }),
            ],
        ),
        None => (acc.content, seq![]),
    };
    let (tool_calls, tool_events) = match d.tool_calls {
        Some(tcs) => tool_calls_step(acc.tool_calls, tcs@),
        None => (acc.tool_calls, seq![]),
    };
    let (content, text_delta_events) = match d.content {
        Some(t) => (kept + t@, seq![checked(EventModel::OutputTextDelta(t@))]),
        None => (kept, seq![]),
    };
    (
        ChoiceModel { content, tool_calls },
        reasoning_events + tool_events + text_delta_events,
    )
}

/// The function-call item of a tool call, if it has both an id and a name.
pub open spec fn function_call_event(t: ToolCallModel) -> Seq<OutgoingModel> {
    if t.id.len() > 0 && t.name.len() > 0 {
        seq![
            plain(
                EventModel::OutputItemDone(
                    ItemModel::FunctionCall {
                        id: None,
                        name: t.name,
                        namespace: None,
                        arguments: t.arguments,
                        call_id: t.id,
                    },
                ),
            ),
        ]
    } else {
        seq![]
    }
}

/// The function-call items of the calls under `keys`, in that order.
pub open spec fn function_call_events(m: Map<i32, ToolCallModel>, keys: Seq<i32>) -> Seq<
    OutgoingModel,
>
    decreases keys.len(),
{
    if keys.len() == 0 {
        seq![]
    } else {
        function_call_events(m, keys.drop_last()) + function_call_event(m[keys.last()])
    }
}

/// The function-call items of all tool calls, by increasing index.
pub open spec fn tool_call_items(m: Map<i32, ToolCallModel>) -> Seq<OutgoingModel> {
    function_call_events(m, sorted_keys(m.dom()))
}

/// What a finish reason emits: the text message, or the tool calls.
pub open spec fn finish_events(acc: ChoiceModel, reason: Option<Seq<char>>) -> Seq<OutgoingModel> {
    match reason {
        Some(r) => if r == "stop"@ || r == "length"@ || r == "content_filter"@ {
            text_events(acc.content)
        } else if r == "tool_calls"@ {
            tool_call_items(acc.tool_calls)
        } else {
            seq![]
        },
        None => seq![],
    }
}

/// Folds one choice: its delta, then its finish reason.
pub open spec fn choice_step(acc: ChoiceModel, choice: ChatChunkChoice) -> (ChoiceModel, Seq<OutgoingModel>) {
    let (acc1, e1) = match choice.delta {
        Some(d) => delta_step(acc, d),
        None => (acc, seq![]),
    };
    (acc1, e1 + finish_events(acc1, choice.finish_reason.deep_view()))
}

/// Folds the choices in order into one accumulator.
pub open spec fn choices_step(acc: ChoiceModel, choices: Seq<ChatChunkChoice>) -> (
    ChoiceModel,
    Seq<OutgoingModel>,
)
    decreases choices.len(),
{
    if choices.len() == 0 {
        (acc, seq![])
    } else {
        let (a1, e1) = choices_step(acc, choices.drop_last());
        let (a2, e2) = choice_step(a1, choices.last());
        (a2, e1 + e2)
    }
}

/// Emits the text received so far as a finished assistant message, if there is any.
pub fn emit_accumulated_text(choice_acc: &DeltaAccumulator, out: &mut Vec<Outgoing>)
    ensures
        outgoing_models(final(out)@) == outgoing_models(old(out)@) + text_events(
            choice_acc.content@,
        ),
{
    if !choice_acc.content.as_str().is_empty() {
        let text = choice_acc.content.clone();
        let content = vec![ContentItem::OutputText { text }];
        let item = ResponseItem::Message {
            id: None,
            role: String::from_str("assistant"),
            content,
            phase: Some(MessagePhase::FinalAnswer),
        };
        let o = Outgoing { item: Ok(ResponseEvent::OutputItemDone(item)), stop_if_undelivered: false };
        proof {
            assert(content@.map_values(|c: ContentItem| c@) =~= seq![
                crate::events::ContentModel::OutputText { text: choice_acc.content@ },
            ]);
            lemma_push_models(out@, o);
        }
        out.push(o);
    } else {
        assert(outgoing_models(old(out)@) + text_events(choice_acc.content@) =~= outgoing_models(old(out)@));
    }
}

/// Emits a function-call item for each tool call with an id and a name, by increasing index.
pub fn emit_tool_call_output_items(choice_acc: &DeltaAccumulator, out: &mut Vec<Outgoing>)
    ensures
        outgoing_models(final(out)@) == outgoing_models(old(out)@) + tool_call_items(
            choice_acc@.tool_calls,
        ),
{
    let ghost m = choice_acc@.tool_calls;
    let ghost out0 = outgoing_models(out@);
    let values = choice_acc.tool_calls.values();
    let ghost key_seq = choose|key_seq: Seq<i32>|
        {
            &&& vstd::std_specs::btree::increasing_seq(key_seq)
            &&& key_seq.to_set() == choice_acc.tool_calls@.dom()
            &&& key_seq.no_duplicates()
            &&& values.remaining() == key_seq.map(|i: int, k: i32| &choice_acc.tool_calls@[k])
        };
    proof {
        lemma_increasing_keys(key_seq);
        assert(m.dom() =~= choice_acc.tool_calls@.dom());
        assert(strictly_increasing(key_seq) && key_seq.to_set() == m.dom());
        assert(strictly_increasing(sorted_keys(m.dom())) && sorted_keys(m.dom()).to_set() == m.dom());
        lemma_sorted_unique(key_seq, sorted_keys(m.dom()));
    }
    assert(key_seq.take(0).len() == 0);
    for t in it: values
        invariant
            it.seq() == key_seq.map(|i: int, k: i32| &choice_acc.tool_calls@[k]),
            key_seq.to_set() == choice_acc.tool_calls@.dom(),
            m == choice_acc@.tool_calls,
            outgoing_models(out@) == out0 + function_call_events(m, key_seq.take(it.index())),
    {
        let ghost k = key_seq[it.index()];
        assert(key_seq.to_set().contains(k));
        assert(t@ == m[k]);
        assert(key_seq.take(it.index() + 1).drop_last() =~= key_seq.take(it.index()));
        assert(key_seq.take(it.index() + 1).last() == k);
        if !t.id.as_str().is_empty() && !t.name.as_str().is_empty() {
            let item = ResponseItem::FunctionCall {
                id: None,
                name: t.name.clone(),
                namespace: None,
                arguments: t.arguments.clone(),
                call_id: t.id.clone(),
            };
            let o = Outgoing { item: Ok(ResponseEvent::OutputItemDone(item)), stop_if_undelivered: false };
            proof {
                lemma_push_models(out@, o);
            }
            out.push(o);
        }
        assert(outgoing_models(out@) =~= out0 + function_call_events(m, key_seq.take(it.index() + 1)));
    }
    assert(key_seq.take(key_seq.len() as int) =~= key_seq);
}

/// Folds the delta of a choice into `acc`, emitting to `out` what the delta forwards.
fn apply_delta(acc: &mut DeltaAccumulator, d: &ChatChunkDelta, out: &mut Vec<Outgoing>)
    ensures
        ({
            let (a, e) = delta_step(old(acc)@, *d);
            &&& final(acc)@ == a
            &&& outgoing_models(final(out)@) == outgoing_models(old(out)@) + e
        }),
{
    let ghost a0 = acc@;
    let ghost out0 = outgoing_models(out@);
    if let Some(r) = &d.reasoning_content {
        if !acc.content.as_str().is_empty() {
            // flush the text received so far before the reasoning
            emit_accumulated_text(acc, out);
            acc.content = String::new();
        } else {
            assert(text_events(acc.content@) =~= seq![]);
            assert(acc.content@ =~= Seq::<char>::empty());
        }
        let o = Outgoing {
            item: Ok(ResponseEvent::ReasoningContentDelta { delta: r.clone(), content_index: 0 }),
            stop_if_undelivered: true,
        };
        proof {
            lemma_push_models(out@, o);
        }
        out.push(o);
    }
    let ghost out1 = outgoing_models(out@);
    if let Some(tcs) = &d.tool_calls {
        apply_tool_calls(&mut acc.tool_calls, tcs, out);
    }
    if let Some(t) = &d.content {
        acc.content.append(t.as_str());
        let o = Outgoing { item: Ok(ResponseEvent::OutputTextDelta(t.clone())), stop_if_undelivered: true };
        proof {
            lemma_push_models(out@, o);
        }
        out.push(o);
    }
    proof {
        let (a, e) = delta_step(a0, *d);
        assert(out1 == out0 + match d.reasoning_content {
            Some(r) => text_events(a0.content) + seq![
                checked(EventModel::ReasoningContentDelta { delta: r@, content_index: 0 }),
            ],
            None => seq![],
        });
        assert(outgoing_models(out@) =~= out0 + e);
        assert(acc@.content =~= a.content);
    }
}

/// Reacts to the finish reason of a choice: `stop`, `length` and `content_filter` emit the
/// text message, `tool_calls` emits the function calls, anything else emits nothing.
fn apply_finish_reason(acc: &DeltaAccumulator, reason: &Option<String>, out: &mut Vec<Outgoing>)
    ensures
        outgoing_models(final(out)@) == outgoing_models(old(out)@) + finish_events(
            acc@,
            reason.deep_view(),
        ),
{
    proof {
        reveal_strlit("stop");
        reveal_strlit("length");
        reveal_strlit("content_filter");
        reveal_strlit("tool_calls");
        reveal_strlit("null");
        reveal_strlit("");
    }
    if let Some(reason) = reason {
        let r = reason.as_str();
        if !r.is_empty() && !same_text(r, "null") {
            if same_text(r, "stop") || same_text(r, "length") || same_text(r, "content_filter") {
                emit_accumulated_text(acc, out);
            } else if same_text(r, "tool_calls") {
                emit_tool_call_output_items(acc, out);
            } else {
                assert(outgoing_models(old(out)@) + finish_events(acc@, Some(reason@)) =~= outgoing_models(old(out)@));
            }
        } else {
            assert(reason@ != "stop"@ && reason@ != "length"@ && reason@ != "content_filter"@ && reason@ != "tool_calls"@) by {
                assert("stop"@.len() == 4 && "length"@.len() == 6 && "content_filter"@.len() == 14 && "tool_calls"@.len() == 10 && "null"@.len() == 4);
                if reason@ == "null"@ {
                    assert(reason@[0] == 'n');
                    assert("stop"@[0] == 's');
                }
            }
            assert(outgoing_models(old(out)@) + finish_events(acc@, Some(reason@)) =~= outgoing_models(old(out)@));
        }
    } else {
        assert(outgoing_models(old(out)@) + finish_events(acc@, None) =~= outgoing_models(old(out)@));
    }
}

/// Folds one choice into `acc`: its delta, then its finish reason.
fn apply_choice(acc: &mut DeltaAccumulator, choice: &ChatChunkChoice, out: &mut Vec<Outgoing>)
    ensures
        ({
            let (a, e) = choice_step(old(acc)@, *choice);
            &&& final(acc)@ == a
            &&& outgoing_models(final(out)@) == outgoing_models(old(out)@) + e
        }),
{
    let ghost out0 = outgoing_models(out@);
    if let Some(d) = &choice.delta {
        apply_delta(acc, d, out);
    } else {
        assert(out0 + seq![] =~= out0);
    }
    apply_finish_reason(acc, &choice.finish_reason, out);
    proof {
        let (a, e) = choice_step(old(acc)@, *choice);
        assert(outgoing_models(out@) =~= out0 + e);
    }
}

/// Folds the choices in order into `acc`.
pub fn apply_choices(acc: &mut DeltaAccumulator, choices: &Vec<ChatChunkChoice>, out: &mut Vec<Outgoing>)
    ensures
        ({
            let (a, e) = choices_step(old(acc)@, choices@);
            &&& final(acc)@ == a
            &&& outgoing_models(final(out)@) == outgoing_models(old(out)@) + e
        }),
{
    let ghost a0 = acc@;
    let ghost out0 = outgoing_models(out@);
    assert(choices@.take(0).len() == 0);
    assert(out0 + seq![] =~= out0);
    for k in 0..choices.len()
        invariant
            ({
                let (a, e) = choices_step(a0, choices@.take(k as int));
                &&& acc@ == a
                &&& outgoing_models(out@) == out0 + e
            }),
    {
        assert(choices@.take(k + 1).drop_last() =~= choices@.take(k as int));
        assert(choices@.take(k + 1).last() == choices@[k as int]);
        apply_choice(acc, &choices[k], out);
        proof {
            let (a1, e1) = choices_step(a0, choices@.take(k as int));
            let (a2, e2) = choice_step(a1, choices@[k as int]);
            assert(outgoing_models(out@) =~= out0 + (e1 + e2));
        }
    }
    assert(choices@.take(choices@.len() as int) =~= choices@);
}

} // verus!
