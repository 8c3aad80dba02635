use vstd::prelude::*;
use std::collections::HashMap;
use crate::types::{Message, MessageView, messages_view};
use crate::text::push_char;

verus! {

/// A JSON value (`serde_json::Value`), carried in recall metadata.
#[verifier::external_type_specification]
#[verifier::external_body]
pub struct ExJsonValue(serde_json::Value);

/// The messages that one recall strategy found.
#[derive(Debug, Clone)]
pub struct RecallResult {
    pub strategy: String,
    pub messages: Vec<Message>,
    pub metadata: HashMap<String, serde_json::Value>,
}

/// The line that shows one message: its role's name, ": ", its content.
pub open spec fn context_line(m: MessageView) -> Seq<char> {
    m.role.spec_name() + seq![':', ' '] + m.content
}

/// The lines of the messages joined by newlines.
pub open spec fn context_text(ms: Seq<MessageView>) -> Seq<char>
    decreases ms.len(),
{
    if ms.len() == 0 {
        Seq::empty()
    } else if ms.len() == 1 {
        context_line(ms[0])
    } else {
        context_text(ms.drop_last()) + seq!['\n'] + context_line(ms.last())
    }
}

/// The name of the recency strategy.
pub open spec fn time_series_name() -> Seq<char> {
    "time_series"@
}

/// The name of the keyword strategy.
pub open spec fn keywords_name() -> Seq<char> {
    "keywords"@
}

/// The name of the semantic strategy.
pub open spec fn vec_semantic_name() -> Seq<char> {
    "vec_semantic"@
}

impl RecallResult {
    /// A result of the named strategy holding these messages and no metadata.
    pub fn from_messages(strategy: String, messages: Vec<Message>) -> (r: RecallResult)
        ensures
            r.strategy@ == strategy@,
            messages_view(r.messages@) == messages_view(messages@),
            r.metadata@ == Map::<String, serde_json::Value>::empty(),
    {
        RecallResult { strategy, messages, metadata: HashMap::new() }
    }

    /// The result of a recency recall ("time_series").
    pub fn time_series(messages: Vec<Message>) -> (r: RecallResult)
        ensures
            r.strategy@ == time_series_name(),
            messages_view(r.messages@) == messages_view(messages@),
            r.metadata@ == Map::<String, serde_json::Value>::empty(),
    {
        RecallResult::from_messages(String::from_str("time_series"), messages)
    }

    /// The result of a keyword recall ("keywords").
    pub fn keywords(messages: Vec<Message>) -> (r: RecallResult)
        ensures
            r.strategy@ == keywords_name(),
            messages_view(r.messages@) == messages_view(messages@),
            r.metadata@ == Map::<String, serde_json::Value>::empty(),
    {
        RecallResult::from_messages(String::from_str("keywords"), messages)
    }

    /// The result of a semantic recall ("vec_semantic").
    pub fn vec_semantic(messages: Vec<Message>) -> (r: RecallResult)
        ensures
            r.strategy@ == vec_semantic_name(),
            messages_view(r.messages@) == messages_view(messages@),
            r.metadata@ == Map::<String, serde_json::Value>::empty(),
    {
        RecallResult::from_messages(String::from_str("vec_semantic"), messages)
    }

    /// One line per message, "role: content", joined by newlines.
    pub fn to_context_string(&self) -> (s: String)
        ensures
            s@ == context_text(messages_view(self.messages@)),
    {
        let ghost ms = messages_view(self.messages@);
        let mut s = String::new();
        let mut i: usize = 0;
        while i < self.messages.len()
            invariant
                ms == messages_view(self.messages@),
                i <= self.messages@.len(),
                s@ == context_text(ms.take(i as int)),
            decreases self.messages@.len() - i,
        {
            let ghost before = s@;
            if i > 0 {
                push_char(&mut s, '\n');
            }
            let m = &self.messages[i];
            let role = m.role.name();
            s.append(role.as_str());
            s.append(": ");
            s.append(m.content.as_str());
            proof {
                reveal_strlit(": ");
                let t = ms.take(i + 1);
                assert(t.drop_last() =~= ms.take(i as int));
                assert(t.last() == m@);
                if i == 0 {
                    assert(ms.take(0) =~= Seq::<MessageView>::empty());
                    assert(s@ =~= context_line(m@));
                } else {
                    assert(s@ =~= before + seq!['\n'] + context_line(m@));
                }
            }
            i += 1;
        }
        proof {
            assert(ms.take(i as int) =~= ms);
        }
        s
    }

    /// Whether no message was found.
    pub fn is_empty(&self) -> (r: bool)
        ensures
            r == (self.messages@.len() == 0),
    {
        self.messages.len() == 0
    }

    /// The number of messages found.
    pub fn len(&self) -> (n: usize)
        ensures
            n == self.messages@.len(),
    {
        self.messages.len()
    }
}

} // verus!

verus! {

/// Context text splits at any point between messages with one newline: the
/// text of two non-empty runs of messages put together is the text of the
/// first, a newline, and the text of the second. A single message is its own
/// line, and no messages give no text.
pub proof fn lemma_context_text_concat(a: Seq<MessageView>, b: Seq<MessageView>)
    requires
        a.len() > 0,
        b.len() > 0,
    ensures
        context_text(a + b) == context_text(a) + seq!['\n'] + context_text(b),
        context_text(seq![b[0]]) == context_line(b[0]),
        context_text(Seq::<MessageView>::empty()) == Seq::<char>::empty(),
    decreases b.len(),
{
    let ab = a + b;
    assert(ab.drop_last() =~= a + b.drop_last());
    assert(ab.last() == b.last());
    if b.len() == 1 {
        assert(b.drop_last() =~= Seq::<MessageView>::empty());
        assert(ab.drop_last() =~= a);
        assert(context_text(b) == context_line(b[0]));
    } else {
        lemma_context_text_concat(a, b.drop_last());
        assert(context_text(ab) =~= context_text(a) + seq!['\n'] + context_text(b));
    }
}

} // verus!
