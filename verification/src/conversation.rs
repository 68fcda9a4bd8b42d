//! The parts of a conversation that carry text: messages, their contents,
//! and the results of tool calls.

use vstd::prelude::*;

verus! {

/// Who wrote a message.
#[derive(Debug, Clone, Copy, PartialEq, Eq, Structural)]
pub enum Role {
    User,
    Assistant,
}

/// Plain text in a message.
#[derive(Debug)]
pub struct TextContent {
    pub text: String,
}

/// One item of a tool's output.
#[derive(Debug)]
pub enum Content {
    Text(String),
    /// Output that carries no text (an image, a resource).
    NonText,
}

impl Content {
    /// A text item.
    pub fn text(text: &str) -> (r: Content)
        ensures
            r matches Content::Text(t) && t@ == text@,
    {
        Content::Text(text.to_owned())
    }
}

/// The output of a tool call that ran.
#[derive(Debug)]
pub struct CallToolResult {
    pub content: Vec<Content>,
}

impl CallToolResult {
    /// A successful call with the given output.
    pub fn success(content: Vec<Content>) -> (r: CallToolResult)
        ensures
            r.content@ == content@,
    {
        CallToolResult { content }
    }
}

/// A tool call that could not run.
#[derive(Debug)]
pub struct ToolError {
    pub message: String,
}

/// The answer to a tool request.
#[derive(Debug)]
pub struct ToolResponse {
    pub id: String,
    pub tool_result: Result<CallToolResult, ToolError>,
}

/// One piece of a message.
#[derive(Debug)]
pub enum MessageContent {
    Text(TextContent),
    ToolResponse(ToolResponse),
    /// Content that carries no text for the reader (tool requests, images,
    /// reasoning).
    Other,
}

/// A message of a conversation.
#[derive(Debug)]
pub struct Message {
    pub role: Role,
    pub content: Vec<MessageContent>,
}

impl Message {
    /// An empty message from the user.
    pub fn user() -> (r: Message)
        ensures
            r.role == Role::User,
            r.content@.len() == 0,
    {
        Message { role: Role::User, content: Vec::new() }
    }

    /// An empty message from the assistant.
    pub fn assistant() -> (r: Message)
        ensures
            r.role == Role::Assistant,
            r.content@.len() == 0,
    {
        Message { role: Role::Assistant, content: Vec::new() }
    }

    /// This message with a text appended.
    pub fn with_text(self, text: &str) -> (r: Message)
        ensures
            r.role == self.role,
            r.content@.len() == self.content@.len() + 1,
            r.content@.drop_last() == self.content@,
            r.content@.last() matches MessageContent::Text(t) && t.text@ == text@,
    {
        let mut m = self;
        m.content.push(MessageContent::Text(TextContent { text: text.to_owned() }));
        m
    }

    /// This message with a tool response appended.
    pub fn with_tool_response(self, id: &str, result: Result<CallToolResult, ToolError>) -> (r:
        Message)
        ensures
            r.role == self.role,
            r.content@.len() == self.content@.len() + 1,
            r.content@.drop_last() == self.content@,
            r.content@.last() matches MessageContent::ToolResponse(resp) && resp.id@ == id@
                && resp.tool_result == result,
    {
        let mut m = self;
        m.content.push(
            MessageContent::ToolResponse(ToolResponse { id: id.to_owned(), tool_result: result }),
        );
        m
    }
}

/// A conversation: its messages in order.
#[derive(Debug)]
pub struct Conversation {
    messages: Vec<Message>,
}

impl View for Conversation {
    type V = Seq<Message>;

    closed spec fn view(&self) -> Seq<Message> {
        self.messages@
    }
}

impl Conversation {
    /// A conversation holding `messages`, taken as they are.
    pub fn new_unvalidated(messages: Vec<Message>) -> (r: Conversation)
        ensures
            r@ == messages@,
    {
        Conversation { messages }
    }

    /// Appends a message.
    pub fn push(&mut self, message: Message)
        ensures
            final(self)@ == old(self)@.push(message),
    {
        self.messages.push(message);
    }

    /// The messages, in order.
    pub fn messages(&self) -> (r: &Vec<Message>)
        ensures
            r@ == self@,
    {
        &self.messages
    }
}

// ---------------------------------------------------------------------------
// The texts a conversation carries
/// The characters of each string.
pub open spec fn strings_view(v: Seq<String>) -> Seq<Seq<char>> {
    v.map_values(|s: String| s@)
}

/// The texts among a tool's output items.
pub open spec fn tool_output_texts(items: Seq<Content>) -> Seq<Seq<char>>
    decreases items.len(),
{
    if items.len() == 0 {
        Seq::empty()
    } else {
        tool_output_texts(items.drop_last()) + match items.last() {
            Content::Text(t) => seq![t@],
            Content::NonText => Seq::empty(),
        }
    }
}

/// The texts one piece of a message carries: its own text, or the texts a
/// tool call returned; nothing for a failed call or other content.
pub open spec fn content_texts(c: MessageContent) -> Seq<Seq<char>> {
    match c {
        MessageContent::Text(t) => seq![t.text@],
        MessageContent::ToolResponse(r) => match r.tool_result {
            Ok(res) => tool_output_texts(res.content@),
            Err(_) => Seq::empty(),
        },
        MessageContent::Other => Seq::empty(),
    }
}

/// The texts of a run of message contents, in order.
pub open spec fn contents_texts(cs: Seq<MessageContent>) -> Seq<Seq<char>>
    decreases cs.len(),
{
    if cs.len() == 0 {
        Seq::empty()
    } else {
        contents_texts(cs.drop_last()) + content_texts(cs.last())
    }
}

/// The texts of a run of messages, in order.
pub open spec fn messages_texts(ms: Seq<Message>) -> Seq<Seq<char>>
    decreases ms.len(),
{
    if ms.len() == 0 {
        Seq::empty()
    } else {
        messages_texts(ms.drop_last()) + contents_texts(ms.last().content@)
    }
}

/// A tool's output items are read first to last: the texts of two runs of
/// items, one after the other, are the texts of the first run followed by
/// those of the second.
pub proof fn law_tool_output_texts_in_order(a: Seq<Content>, b: Seq<Content>)
    ensures
        tool_output_texts(a + b) == tool_output_texts(a) + tool_output_texts(b),
    decreases b.len(),
{
    if b.len() == 0 {
        assert(a + b =~= a);
        assert(tool_output_texts(a) + tool_output_texts(b) =~= tool_output_texts(a));
    } else {
        law_tool_output_texts_in_order(a, b.drop_last());
        assert((a + b).drop_last() =~= a + b.drop_last());
        assert((a + b).last() == b.last());
        let tail = match b.last() {
            Content::Text(t) => seq![t@],
            Content::NonText => Seq::<Seq<char>>::empty(),
        };
        assert(tool_output_texts(a) + tool_output_texts(b.drop_last()) + tail =~= tool_output_texts(
            a,
        ) + (tool_output_texts(b.drop_last()) + tail));
    }
}

/// A message's contents are read first to last: the texts of two runs of
/// contents, one after the other, are the texts of the first run followed
/// by those of the second.
pub proof fn law_contents_texts_in_order(a: Seq<MessageContent>, b: Seq<MessageContent>)
    ensures
        contents_texts(a + b) == contents_texts(a) + contents_texts(b),
    decreases b.len(),
{
    if b.len() == 0 {
        assert(a + b =~= a);
        assert(contents_texts(a) + contents_texts(b) =~= contents_texts(a));
    } else {
        law_contents_texts_in_order(a, b.drop_last());
        assert((a + b).drop_last() =~= a + b.drop_last());
        assert((a + b).last() == b.last());
        assert(contents_texts(a) + contents_texts(b.drop_last()) + content_texts(b.last())
            =~= contents_texts(a) + (contents_texts(b.drop_last()) + content_texts(b.last())));
    }
}

/// The texts of one piece of content are that piece's own texts.
pub proof fn law_contents_texts_single(c: MessageContent)
    ensures
        contents_texts(seq![c]) == content_texts(c),
{
    let one = seq![c];
    assert(one.drop_last() =~= Seq::<MessageContent>::empty());
    assert(one.last() == c);
    assert(contents_texts(one.drop_last()) == Seq::<Seq<char>>::empty());
    assert(contents_texts(one) == contents_texts(one.drop_last()) + content_texts(one.last()));
    assert(Seq::<Seq<char>>::empty() + content_texts(c) =~= content_texts(c));
}

/// Messages are read first to last: the texts of two runs of messages, one
/// after the other, are the texts of the first run followed by those of
/// the second.
pub proof fn law_messages_texts_in_order(a: Seq<Message>, b: Seq<Message>)
    ensures
        messages_texts(a + b) == messages_texts(a) + messages_texts(b),
    decreases b.len(),
{
    if b.len() == 0 {
        assert(a + b =~= a);
        assert(messages_texts(a) + messages_texts(b) =~= messages_texts(a));
    } else {
        law_messages_texts_in_order(a, b.drop_last());
        assert((a + b).drop_last() =~= a + b.drop_last());
        assert((a + b).last() == b.last());
        assert(messages_texts(a) + messages_texts(b.drop_last()) + contents_texts(
            b.last().content@,
        ) =~= messages_texts(a) + (messages_texts(b.drop_last()) + contents_texts(
            b.last().content@,
        )));
    }
}

/// Putting a piece that carries no text among a message's contents leaves
/// its texts as they were.
pub proof fn lemma_contents_texts_insert(cs: Seq<MessageContent>, j: int, x: MessageContent)
    requires
        0 <= j <= cs.len(),
        content_texts(x) == Seq::<Seq<char>>::empty(),
    ensures
        contents_texts(cs.insert(j, x)) == contents_texts(cs),
    decreases cs.len(),
{
    let ins = cs.insert(j, x);
    if j == cs.len() {
        assert(ins.drop_last() =~= cs);
        assert(ins.last() == x);
        assert(contents_texts(cs) + content_texts(x) =~= contents_texts(cs));
    } else {
        assert(ins.drop_last() =~= cs.drop_last().insert(j, x));
        assert(ins.last() == cs.last());
        lemma_contents_texts_insert(cs.drop_last(), j, x);
    }
}

/// Messages whose contents carry the same texts, in turn, carry the same
/// texts in all.
pub proof fn lemma_messages_texts_same(ms1: Seq<Message>, ms2: Seq<Message>)
    requires
        ms1.len() == ms2.len(),
        forall|k: int|
            0 <= k < ms1.len() ==> contents_texts(#[trigger] ms1[k].content@) == contents_texts(
                ms2[k].content@,
            ),
    ensures
        messages_texts(ms1) == messages_texts(ms2),
    decreases ms1.len(),
{
    if ms1.len() > 0 {
        let k = ms1.len() - 1;
        assert(contents_texts(ms1[k].content@) == contents_texts(ms2[k].content@));
        lemma_messages_texts_same(ms1.drop_last(), ms2.drop_last());
    }
}

/// Lists the texts one piece of a message carries.
pub fn texts_of_content(c: &MessageContent) -> (r: Vec<String>)
    ensures
        strings_view(r@) == content_texts(*c),
{
    match c {
        MessageContent::Text(t) => {
            let v = vec![t.text.clone()];
            assert(strings_view(v@) =~= seq![t.text@]);
            v
        },
        MessageContent::ToolResponse(resp) => match &resp.tool_result {
            Ok(res) => {
                let items = &res.content;
                let mut v: Vec<String> = Vec::new();
                let mut i: usize = 0;
                while i < items.len()
                    invariant
                        i <= items.len(),
                        strings_view(v@) == tool_output_texts(items@.take(i as int)),
                    decreases items.len() - i,
                {
                    assert(items@.take(i + 1).drop_last() =~= items@.take(i as int));
                    assert(items@.take(i + 1).last() == items@[i as int]);
                    match &items[i] {
                        Content::Text(t) => {
                            v.push(t.clone());
                            assert(strings_view(v@) =~= strings_view(v@.drop_last()) + seq![
                                t@,
                            ]);
                        },
                        Content::NonText => {
                            assert(tool_output_texts(items@.take(i + 1)) =~= tool_output_texts(
                                items@.take(i as int),
                            ));
                        },
                    }
                    i += 1;
                }
                assert(items@.take(items.len() as int) =~= items@);
                v
            },
            Err(_) => {
                let v: Vec<String> = Vec::new();
                assert(strings_view(v@) =~= Seq::<Seq<char>>::empty());
                v
            },
        },
        MessageContent::Other => {
            let v: Vec<String> = Vec::new();
            assert(strings_view(v@) =~= Seq::<Seq<char>>::empty());
            v
        },
    }
}

} // verus!
