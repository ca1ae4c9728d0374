//! The conversation model: roles, content blocks, messages.
use vstd::prelude::*;

verus! {

/// Who authored a message.
#[derive(Clone, Copy, Debug, PartialEq, Eq)]
pub enum Role {
    System,
    User,
    Assistant,
    Tool,
}

/// Where the bytes of an image or file live: a URL, or inline base64 data.
#[derive(Clone, Debug)]
pub enum ImageData {
    Url(String),
    Base64(String),
}

/// One piece of a message's content.
#[derive(Clone, Debug)]
pub enum ContentBlock {
    Text { text: String },
    ToolUse { id: String, name: String, input: String },
    ToolResult { tool_use_id: String, content: String },
    Image { media_type: String, data: ImageData },
    File { name: String, media_type: String, data: ImageData },
    /// Inline base64 audio; `format` is the container (`wav` or `mp3`).
    Audio { format: String, data: String },
}

/// A message: an author and an ordered list of content blocks.
#[derive(Clone, Debug)]
pub struct Message {
    pub role: Role,
    pub content: Vec<ContentBlock>,
}

/// The history of a chat, oldest message first.
#[derive(Clone, Debug)]
pub struct Conversation {
    pub messages: Vec<Message>,
}

/// The block carries an image, a file or audio (anything but text and tool traffic).
pub open spec fn is_media(b: ContentBlock) -> bool {
    b is Image || b is File || b is Audio
}

impl Conversation {
    /// An empty conversation.
    pub fn new() -> (res: Conversation)
        ensures
            res.messages@.len() == 0,
    {
        Conversation { messages: Vec::new() }
    }

    /// Appends `msg` as the newest message.
    pub fn push(&mut self, msg: Message)
        ensures
            final(self).messages@ == old(self).messages@.push(msg),
    {
        self.messages.push(msg);
    }

    /// The number of messages.
    pub fn len(&self) -> (res: usize)
        ensures
            res == self.messages@.len(),
    {
        self.messages.len()
    }
}

impl Default for Conversation {
    fn default() -> (res: Conversation)
        ensures
            res.messages@.len() == 0,
    {
        Conversation::new()
    }
}

} // verus!
