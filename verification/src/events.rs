use vstd::prelude::*;

use crate::error::{ApiError, ApiErrorModel};

verus! {

/// The phase of an assistant message.
#[derive(Debug, Clone, Copy, PartialEq, Eq, Structural)]
pub enum MessagePhase {
    FinalAnswer,
}

/// One piece of content of a message.
#[derive(Debug, Clone, PartialEq, Eq)]
pub enum ContentItem {
    OutputText { text: String },
}

/// A finished item of the model's output.
#[derive(Debug, Clone, PartialEq, Eq)]
pub enum ResponseItem {
    Message {
        id: Option<String>,
        role: String,
        content: Vec<ContentItem>,
        phase: Option<MessagePhase>,
    },
    FunctionCall {
        id: Option<String>,
        name: String,
        namespace: Option<String>,
        arguments: String,
        call_id: String,
    },
}

/// Token accounting reported at the end of a response.
#[derive(Debug, Clone, Copy, PartialEq, Eq, Structural)]
pub struct TokenUsage {
    pub input_tokens: i64,
    pub cached_input_tokens: i64,
    pub output_tokens: i64,
    pub reasoning_output_tokens: i64,
    pub total_tokens: i64,
}

/// An event delivered to the consumer of a response stream.
#[derive(Debug, Clone, PartialEq, Eq)]
pub enum ResponseEvent {
    Created,
    ServerModel(String),
    OutputTextDelta(String),
    ReasoningContentDelta { delta: String, content_index: i64 },
    ToolCallInputDelta { item_id: String, call_id: Option<String>, delta: String },
    OutputItemDone(ResponseItem),
    Completed { response_id: String, token_usage: Option<TokenUsage>, end_turn: Option<bool> },
}

/// Abstract value of a [`ContentItem`].
pub enum ContentModel {
    OutputText { text: Seq<char> },
}

/// Abstract value of a [`ResponseItem`].
pub enum ItemModel {
    Message {
        id: Option<Seq<char>>,
        role: Seq<char>,
        content: Seq<ContentModel>,
        phase: Option<MessagePhase>,
    },
    FunctionCall {
        id: Option<Seq<char>>,
        name: Seq<char>,
        namespace: Option<Seq<char>>,
        arguments: Seq<char>,
        call_id: Seq<char>,
    },
}

/// Abstract value of a [`ResponseEvent`].
pub enum EventModel {
    Created,
    ServerModel(Seq<char>),
    OutputTextDelta(Seq<char>),
    ReasoningContentDelta { delta: Seq<char>, content_index: i64 },
    ToolCallInputDelta { item_id: Seq<char>, call_id: Option<Seq<char>>, delta: Seq<char> },
    OutputItemDone(ItemModel),
    Completed { response_id: Seq<char>, token_usage: Option<TokenUsage>, end_turn: Option<bool> },
}

impl View for ContentItem {
    type V = ContentModel;

    open spec fn view(&self) -> ContentModel {
        match self {
            ContentItem::OutputText { text } => ContentModel::OutputText { text: text@ },
        }
    }
}

impl View for ResponseItem {
    type V = ItemModel;

    open spec fn view(&self) -> ItemModel {
        match self {
            ResponseItem::Message { id, role, content, phase } => ItemModel::Message {
                id: id.deep_view(),
                role: role@,
                content: content@.map_values(|c: ContentItem| c@),
                phase: *phase,
            },
            ResponseItem::FunctionCall { id, name, namespace, arguments, call_id } =>
                ItemModel::FunctionCall {
                id: id.deep_view(),
                name: name@,
                namespace: namespace.deep_view(),
                arguments: arguments@,
                call_id: call_id@,
            },
        }
    }
}

impl View for ResponseEvent {
    type V = EventModel;

    open spec fn view(&self) -> EventModel {
        match self {
            ResponseEvent::Created => EventModel::Created,
            ResponseEvent::ServerModel(m) => EventModel::ServerModel(m@),
            ResponseEvent::OutputTextDelta(t) => EventModel::OutputTextDelta(t@),
            ResponseEvent::ReasoningContentDelta { delta, content_index } =>
                EventModel::ReasoningContentDelta { delta: delta@, content_index: *content_index },
            ResponseEvent::ToolCallInputDelta { item_id, call_id, delta } =>
                EventModel::ToolCallInputDelta {
                item_id: item_id@,
                call_id: call_id.deep_view(),
                delta: delta@,
            },
            ResponseEvent::OutputItemDone(item) => EventModel::OutputItemDone(item@),
            ResponseEvent::Completed { response_id, token_usage, end_turn } =>
                EventModel::Completed {
                response_id: response_id@,
                token_usage: *token_usage,
                end_turn: *end_turn,
            },
        }
    }
}

/// An event or an error to hand to the consumer, together with whether the
/// stream stops when the consumer can no longer receive it.
#[derive(Debug)]
pub struct Outgoing {
    pub item: Result<ResponseEvent, ApiError>,
    pub stop_if_undelivered: bool,
}

/// Abstract value of an [`Outgoing`].
pub struct OutgoingModel {
    pub item: Result<EventModel, ApiErrorModel>,
    pub stop_if_undelivered: bool,
}

impl View for Outgoing {
    type V = OutgoingModel;

    open spec fn view(&self) -> OutgoingModel {
        OutgoingModel {
            item: match &self.item {
                Ok(e) => Ok(e@),
                Err(e) => Err(e@),
            },
            stop_if_undelivered: self.stop_if_undelivered,
        }
    }
}

/// The abstract values of a sequence of outgoing events.
pub open spec fn outgoing_models(v: Seq<Outgoing>) -> Seq<OutgoingModel> {
    v.map_values(|o: Outgoing| o@)
}

/// Pushing an event appends its abstract value.
pub proof fn lemma_push_models(v: Seq<Outgoing>, o: Outgoing)
    ensures
        outgoing_models(v.push(o)) =~= outgoing_models(v).push(o@),
{
}

/// An event that ends the stream: completion or an error.
pub open spec fn is_terminal(o: OutgoingModel) -> bool {
    match o.item {
        Ok(EventModel::Completed { .. }) => true,
        Ok(_) => false,
        Err(_) => true,
    }
}

/// The assistant message whose only content is `text`.
pub open spec fn assistant_message(text: Seq<char>) -> ItemModel {
    ItemModel::Message {
        id: None,
        role: "assistant"@,
        content: seq![ContentModel::OutputText { text }],
        phase: Some(MessagePhase::FinalAnswer),
    }
}

/// An event sent without stopping when it cannot be delivered.
pub open spec fn plain(e: EventModel) -> OutgoingModel {
    OutgoingModel { item: Ok(e), stop_if_undelivered: false }
}

/// An event after whose failed delivery the stream stops.
pub open spec fn checked(e: EventModel) -> OutgoingModel {
    OutgoingModel { item: Ok(e), stop_if_undelivered: true }
}

} // verus!
