//! Streamed summaries: events of a stream, their texts, and what they come to.

use crate::config::{models_or, parse_models};
use crate::summary::{merged, openrouter_content_text, GeminiResponse, MessageContent};
use crate::text::{
    blank, chars_of, find, has_text, is_blank, joined, joining_puts_separators_between, occurs_at,
    opt_text, skip_leading, slices,
    strip_prefix, texts, trim, trim_start_by, trimmed, CharSet,
};
use vstd::prelude::*;

verus! {

/// What is told of a summary while it is streamed.
#[derive(Debug)]
pub enum StreamingMessage {
    /// A piece of text.
    Chunk(String),
    /// There is no more.
    Done,
    /// It failed.
    Error(String),
}

/// What a [`StreamingMessage`] holds.
#[verifier::ext_equal]
pub enum MessageView {
    Chunk(Seq<char>),
    Done,
    Error(Seq<char>),
}

impl View for StreamingMessage {
    type V = MessageView;

    open spec fn view(&self) -> MessageView {
        match *self {
            StreamingMessage::Chunk(text) => MessageView::Chunk(text@),
            StreamingMessage::Done => MessageView::Done,
            StreamingMessage::Error(text) => MessageView::Error(text@),
        }
    }
}

/// A text without carriage returns.
pub open spec fn without_returns(s: Seq<char>) -> Seq<char> {
    s.filter(|c: char| c != '\r')
}

/// Appends received text to the buffer, without its carriage returns.
pub fn push_received(buffer: &mut String, text: &str)
    ensures
        final(buffer)@ == old(buffer)@ + without_returns(text@),
{
    let chars = chars_of(text);
    let ghost keep = |c: char| c != '\r';
    let ghost start = buffer@;
    let mut i: usize = 0;
    assert(text@.take(0).filter(keep) =~= Seq::<char>::empty()) by {
        reveal(Seq::filter);
    }
    assert(buffer@ =~= start + text@.take(0).filter(keep));
    while i < chars.len()
        invariant
            chars@ == text@,
            i <= chars.len(),
            keep == (|c: char| c != '\r'),
            buffer@ == start + text@.take(i as int).filter(keep),
        decreases chars.len() - i,
    {
        proof {
            reveal(Seq::filter);
            assert(text@.take(i + 1).drop_last() =~= text@.take(i as int));
        }
        if chars[i] != '\r' {
            buffer.push(chars[i]);
        }
        assert(buffer@ =~= start + text@.take(i + 1).filter(keep));
        i += 1;
    }
    assert(text@.take(text@.len() as int) =~= text@);
}

/// Whether the first empty line of a buffer follows position `i`.
pub open spec fn first_event_end(buffer: Seq<char>, i: int) -> bool {
    occurs_at(buffer, "\n\n"@, i) && forall|j: int| 0 <= j < i ==> !occurs_at(buffer, "\n\n"@, j)
}

/// Takes the first event, which ends with an empty line, out of the buffer. Line feeds before
/// the event are dropped.
pub fn pop_next_sse_event(buffer: &mut String) -> (event: Option<String>)
    ensures
        match event {
            Some(event) => exists|i: int|
                {
                    &&& #[trigger] first_event_end(old(buffer)@, i)
                    &&& event@ == skip_leading(old(buffer)@.take(i), CharSet::LineFeed)
                    &&& final(buffer)@ == old(buffer)@.skip(i + 2)
                },
            None => !has_text(old(buffer)@, "\n\n"@) && final(buffer)@ == old(buffer)@,
        },
{
    proof {
        reveal_strlit("\n\n");
    }
    let ghost all = buffer@;
    let (event, rest) = {
        let text = buffer.as_str();
        let end: usize = match find(text, "\n\n") {
            Some(end) => end,
            None => {
                return None;
            },
        };
        let length: usize = text.unicode_len();
        let head = text.substring_char(0, end);
        assert(head@ =~= all.take(end as int));
        let tail = text.substring_char(end + 2, length);
        assert(tail@ =~= all.skip(end + 2));
        assert(first_event_end(all, end as int));
        (trim_start_by(head, CharSet::LineFeed).to_owned(), tail.to_owned())
    };
    *buffer = rest;
    Some(event)
}

/// Nothing but an empty line is lost between an event and what follows it.
pub proof fn events_and_rest_make_the_buffer(buffer: Seq<char>, i: int)
    requires
        first_event_end(buffer, i),
    ensures
        buffer == buffer.take(i) + "\n\n"@ + buffer.skip(i + 2),
        !has_text(buffer.take(i), "\n\n"@),
        buffer.skip(i + 2).len() < buffer.len(),
{
    reveal_strlit("\n\n");
    assert(buffer.subrange(i, i + 2) == "\n\n"@);
    assert(buffer =~= buffer.take(i) + buffer.subrange(i, i + 2) + buffer.skip(i + 2));
    assert forall|j: int| !occurs_at(buffer.take(i), "\n\n"@, j) by {
        if occurs_at(buffer.take(i), "\n\n"@, j) {
            assert(buffer.take(i).subrange(j, j + 2) =~= buffer.subrange(j, j + 2));
            assert(occurs_at(buffer, "\n\n"@, j));
        }
    }
}

/// The data of an event, where it has some.
pub fn sse_event_data<'a>(event: &'a str) -> (r: Option<&'a str>)
    ensures
        match r {
            Some(data) => "data: "@.is_prefix_of(event@) && data@ == event@.skip(
                "data: "@.len() as int,
            ),
            None => !"data: "@.is_prefix_of(event@),
        },
{
    strip_prefix(event, "data: ")
}

/// The texts of parts that have one.
pub open spec fn texts_of_parts(parts: Seq<Option<String>>) -> Seq<Seq<char>>
    decreases parts.len(),
{
    if parts.len() == 0 {
        Seq::empty()
    } else {
        match parts.last() {
            Some(text) => texts_of_parts(parts.drop_last()).push(text@),
            None => texts_of_parts(parts.drop_last()),
        }
    }
}

/// The texts of a reply's first answer.
pub open spec fn reply_texts(response: GeminiResponse) -> Seq<Seq<char>> {
    match response.candidates {
        Some(candidates) => if candidates@.len() > 0 {
            texts_of_parts(candidates@[0].parts@)
        } else {
            Seq::empty()
        },
        None => Seq::empty(),
    }
}

/// The texts of an event, given what its data was parsed as. Events without data, and data
/// that could not be parsed, have none.
pub fn parse_gemini_sse_event_text(event: &str, parsed: Option<GeminiResponse>) -> (r: Vec<String>)
    ensures
        texts(r@) == if "data: "@.is_prefix_of(event@) {
            match parsed {
                Some(response) => reply_texts(response),
                None => Seq::empty(),
            }
        } else {
            Seq::empty()
        },
{
    let mut r: Vec<String> = Vec::new();
    assert(texts(r@) =~= Seq::<Seq<char>>::empty());
    if sse_event_data(event).is_none() {
        return r;
    }
    if let Some(response) = parsed {
        if let Some(candidates) = &response.candidates {
            if candidates.len() > 0 {
                let parts = &candidates[0].parts;
                let mut i: usize = 0;
                assert(texts(r@) =~= texts_of_parts(parts@.take(0)));
                while i < parts.len()
                    invariant
                        i <= parts.len(),
                        texts(r@) == texts_of_parts(parts@.take(i as int)),
                    decreases parts.len() - i,
                {
                    let ghost before = texts(r@);
                    assert(parts@.take(i + 1).drop_last() =~= parts@.take(i as int));
                    if let Some(text) = &parts[i] {
                        r.push(text.clone());
                        assert(texts(r@) =~= before.push(text@));
                    }
                    i += 1;
                }
                assert(parts@.take(parts@.len() as int) =~= parts@);
            }
        }
    }
    r
}

/// The text of a message's content: a text as it is, parts only where they are not blank.
pub open spec fn content_of(content: MessageContent) -> Option<Seq<char>> {
    match content {
        MessageContent::Text(text) => Some(text@),
        MessageContent::Parts(parts) => if is_blank(merged(parts@)) {
            None
        } else {
            Some(merged(parts@))
        },
        MessageContent::Other => None,
    }
}

/// The text of a message's content.
pub fn extract_openrouter_content(content: &MessageContent) -> (r: Option<String>)
    ensures
        opt_text(r) == content_of(*content),
{
    let text = openrouter_content_text(content);
    match content {
        MessageContent::Text(_) => Some(text),
        MessageContent::Parts(_) => if blank(text.as_str()) {
            None
        } else {
            Some(text)
        },
        MessageContent::Other => None,
    }
}

/// The models to ask where the environment names none.
pub open spec fn default_models() -> Seq<Seq<char>> {
    seq![
        "openrouter/free"@,
        "moonshotai/kimi-k2"@,
        "deepseek/deepseek-r1-0528"@,
        "tngtech/deepseek-r1t2-chimera"@,
    ]
}

/// The models that the environment names, or the default ones.
pub fn configured_openrouter_models(raw: Option<String>) -> (models: Vec<String>)
    ensures
        texts(models@) == models_or(opt_text(raw), default_models()),
{
    let default = [
        "openrouter/free",
        "moonshotai/kimi-k2",
        "deepseek/deepseek-r1-0528",
        "tngtech/deepseek-r1t2-chimera",
    ];
    assert(slices(default@) =~= default_models());
    parse_models(raw, &default)
}

/// What is told where both providers failed.
pub fn streaming_failure(gemini: &str, openrouter: &str) -> (r: StreamingMessage)
    ensures
        r@ == MessageView::Error(
            "Gemini failed: "@ + gemini@ + ". OpenRouter fallback failed: "@ + openrouter@,
        ),
{
    StreamingMessage::Error(
        "Gemini failed: ".to_owned().concat(gemini).concat(". OpenRouter fallback failed: ").concat(
            openrouter,
        ),
    )
}

/// What is told of a text that came at once: the text, trimmed, unless it is blank; then, that
/// there is no more.
pub open spec fn messages_for(text: Seq<char>) -> Seq<MessageView> {
    if is_blank(text) {
        seq![MessageView::Done]
    } else {
        seq![MessageView::Chunk(trimmed(text)), MessageView::Done]
    }
}

pub open spec fn message_views(messages: Seq<StreamingMessage>) -> Seq<MessageView> {
    messages.map_values(|message: StreamingMessage| message@)
}

/// What is told of a text that came at once.
pub fn messages_of(text: &str) -> (messages: Vec<StreamingMessage>)
    ensures
        message_views(messages@) == messages_for(text@),
{
    let summary = trim(text);
    let mut messages: Vec<StreamingMessage> = Vec::new();
    if !summary.is_empty() {
        messages.push(StreamingMessage::Chunk(summary.to_owned()));
    }
    messages.push(StreamingMessage::Done);
    assert(message_views(messages@) =~= messages_for(text@));
    messages
}

/// Errors of a streamed summary.
#[derive(Debug, Clone, PartialEq, Eq)]
pub enum SummaryGenerationError {
    /// The stream told of an error.
    Stream(String),
    /// The summary is blank.
    EmptySummary,
}

impl SummaryGenerationError {
    pub fn message(&self) -> (r: String)
        ensures
            r@ == match *self {
                SummaryGenerationError::Stream(error) => error@,
                SummaryGenerationError::EmptySummary => "Summary was empty"@,
            },
    {
        match self {
            SummaryGenerationError::Stream(error) => error.clone(),
            SummaryGenerationError::EmptySummary => "Summary was empty".to_owned(),
        }
    }
}

/// What came of a streamed summary: the error that it told of, or its trimmed text.
#[verifier::ext_equal]
pub enum CollectedView {
    Summary(Seq<char>),
    Stream(Seq<char>),
    Empty,
}

pub open spec fn collected_view(result: Result<String, SummaryGenerationError>) -> CollectedView {
    match result {
        Ok(summary) => CollectedView::Summary(summary@),
        Err(SummaryGenerationError::Stream(error)) => CollectedView::Stream(error@),
        Err(SummaryGenerationError::EmptySummary) => CollectedView::Empty,
    }
}

/// What a text is as a summary.
pub open spec fn as_summary(text: Seq<char>) -> CollectedView {
    if is_blank(text) {
        CollectedView::Empty
    } else {
        CollectedView::Summary(trimmed(text))
    }
}

/// What comes of a stream once `text` was received: the pieces up to the message that there is
/// no more, or up to the end of the stream; an error before that fails it.
pub open spec fn collected(text: Seq<char>, messages: Seq<MessageView>) -> CollectedView
    decreases messages.len(),
{
    if messages.len() == 0 {
        as_summary(text)
    } else {
        match messages[0] {
            MessageView::Chunk(chunk) => collected(text + chunk, messages.drop_first()),
            MessageView::Done => as_summary(text),
            MessageView::Error(error) => CollectedView::Stream(error),
        }
    }
}

/// A streamed summary as far as it was received.
#[derive(Debug)]
pub struct SummaryCollector {
    text: String,
}

impl View for SummaryCollector {
    type V = Seq<char>;

    closed spec fn view(&self) -> Seq<char> {
        self.text@
    }
}

impl SummaryCollector {
    /// Nothing was received.
    pub fn new() -> (r: Self)
        ensures
            r@ == Seq::<char>::empty(),
    {
        SummaryCollector { text: String::new() }
    }

    /// Takes in a message; gives what came of the stream if it ends with it.
    pub fn accept(&mut self, message: &StreamingMessage) -> (r: Option<
        Result<String, SummaryGenerationError>,
    >)
        ensures
            match message@ {
                MessageView::Chunk(chunk) => r is None && final(self)@ == old(self)@ + chunk,
                MessageView::Done => {
                    &&& final(self)@ == old(self)@
                    &&& r matches Some(result) && collected_view(result) == as_summary(old(self)@)
                },
                MessageView::Error(error) => {
                    &&& final(self)@ == old(self)@
                    &&& r matches Some(result) && collected_view(result) == CollectedView::Stream(
                        error,
                    )
                },
            },
    {
        match message {
            StreamingMessage::Chunk(chunk) => {
                self.text.append(chunk.as_str());
                None
            },
            StreamingMessage::Done => Some(self.finish()),
            StreamingMessage::Error(error) => Some(
                Err(SummaryGenerationError::Stream(error.clone())),
            ),
        }
    }

    /// What came of a stream that ended.
    pub fn finish(&self) -> (r: Result<String, SummaryGenerationError>)
        ensures
            collected_view(r) == as_summary(self@),
    {
        let summary = trim(self.text.as_str());
        if summary.is_empty() {
            Err(SummaryGenerationError::EmptySummary)
        } else {
            Ok(summary.to_owned())
        }
    }
}

/// What comes of all messages of a stream.
pub fn collect_with_chunks(messages: &Vec<StreamingMessage>) -> (r: Result<
    String,
    SummaryGenerationError,
>)
    ensures
        collected_view(r) == collected(Seq::empty(), message_views(messages@)),
{
    let ghost all = message_views(messages@);
    let mut collector = SummaryCollector::new();
    let mut i: usize = 0;
    assert(all.skip(0) =~= all);
    while i < messages.len()
        invariant
            i <= messages.len(),
            all == message_views(messages@),
            collected(collector@, all.skip(i as int)) == collected(Seq::empty(), all),
        decreases messages.len() - i,
    {
        assert(all.skip(i as int)[0] == messages@[i as int]@);
        assert(all.skip(i as int).drop_first() =~= all.skip(i + 1));
        if let Some(result) = collector.accept(&messages[i]) {
            return result;
        }
        i += 1;
    }
    collector.finish()
}

/// A text that is told at once is collected again, trimmed; a blank one is not.
pub proof fn told_texts_are_collected(text: Seq<char>)
    ensures
        collected(Seq::empty(), messages_for(text)) == as_summary(text),
{
    let none = Seq::<char>::empty();
    let messages = messages_for(text);
    reveal_with_fuel(collected, 3);
    if is_blank(text) {
        assert(trimmed(none).len() == 0);
    } else {
        assert(none + trimmed(text) =~= trimmed(text));
        crate::cache::storage::lemma_trimmed(text);
        crate::cache::storage::lemma_trimmed_identity(trimmed(text));
        assert(messages.drop_first()[0] == MessageView::Done);
    }
}

/// The texts of a reply come part by part, from its first answer alone.
pub proof fn reply_texts_come_part_by_part(
    a: Seq<Option<String>>,
    b: Seq<Option<String>>,
    text: String,
    response: GeminiResponse,
)
    ensures
        texts_of_parts(a + b) == texts_of_parts(a) + texts_of_parts(b),
        texts_of_parts(seq![Some(text)]) == seq![text@],
        texts_of_parts(seq![None::<String>]).len() == 0,
        response.candidates matches Some(candidates) ==> candidates@.len() > 0 ==> reply_texts(
            response,
        ) == texts_of_parts(candidates@[0].parts@),
        response.candidates is None ==> reply_texts(response).len() == 0,
        response.candidates matches Some(candidates) ==> candidates@.len() == 0 ==> reply_texts(
            response,
        ).len() == 0,
    decreases b.len(),
{
    let none = Seq::<Option<String>>::empty();
    assert(seq![Some(text)].drop_last() =~= none);
    assert(seq![None::<String>].drop_last() =~= none);
    assert(texts_of_parts(none) =~= Seq::<Seq<char>>::empty());
    assert(texts_of_parts(seq![Some(text)]) =~= seq![text@]);
    if b.len() == 0 {
        assert(a + b =~= a);
        assert(texts_of_parts(a) + texts_of_parts(b) =~= texts_of_parts(a));
    } else {
        reply_texts_come_part_by_part(a, b.drop_last(), text, response);
        assert((a + b).drop_last() =~= a + b.drop_last());
        assert((a + b).last() == b.last());
        assert(texts_of_parts(a + b) =~= texts_of_parts(a) + texts_of_parts(b));
    }
}

proof fn lemma_chunks_first(text: Seq<char>, chunks: Seq<Seq<char>>, rest: Seq<MessageView>)
    ensures
        collected(
            text,
            chunks.map_values(|chunk: Seq<char>| MessageView::Chunk(chunk)) + rest,
        ) == collected(text + joined(chunks, Seq::empty()), rest),
    decreases chunks.len(),
{
    let none = Seq::<char>::empty();
    let told = |chunk: Seq<char>| MessageView::Chunk(chunk);
    let messages = chunks.map_values(told) + rest;
    if chunks.len() == 0 {
        assert(messages =~= rest);
        assert(text + joined(chunks, none) =~= text);
    } else {
        let later = chunks.drop_first();
        assert(messages[0] == MessageView::Chunk(chunks[0]));
        assert(messages.drop_first() =~= later.map_values(told) + rest);
        lemma_chunks_first(text + chunks[0], later, rest);
        let first = seq![chunks[0]];
        assert(chunks =~= first + later);
        joining_puts_separators_between(first, later, chunks[0], none);
        assert(text + chunks[0] + joined(later, none) =~= text + joined(chunks, none));
    }
}

/// A streamed summary is the pieces that came before the stream ended, one after another and
/// then trimmed; what follows its end does not count. An error before the end is what comes of
/// it.
pub proof fn streams_come_to_their_pieces(
    chunks: Seq<Seq<char>>,
    error: Seq<char>,
    rest: Seq<MessageView>,
)
    ensures
        ({
            let told = chunks.map_values(|chunk: Seq<char>| MessageView::Chunk(chunk));
            let whole = joined(chunks, Seq::empty());
            let empty = Seq::<char>::empty();
            let ended = collected(empty, told + seq![MessageView::Done] + rest);
            &&& collected(empty, told) == ended
            &&& trimmed(whole).len() > 0 ==> ended == CollectedView::Summary(trimmed(whole))
            &&& trimmed(whole).len() == 0 ==> ended == CollectedView::Empty
            &&& collected(empty, told + seq![MessageView::Error(error)] + rest)
                == CollectedView::Stream(error)
        }),
{
    let told = chunks.map_values(|chunk: Seq<char>| MessageView::Chunk(chunk));
    let empty = Seq::<char>::empty();
    let nothing = Seq::<MessageView>::empty();
    let done = seq![MessageView::Done] + rest;
    let failed = seq![MessageView::Error(error)] + rest;
    let whole = joined(chunks, empty);
    assert(told + seq![MessageView::Done] + rest =~= told + done);
    assert(told + seq![MessageView::Error(error)] + rest =~= told + failed);
    assert(told + nothing =~= told);
    assert(empty + whole =~= whole);
    lemma_chunks_first(empty, chunks, done);
    lemma_chunks_first(empty, chunks, failed);
    lemma_chunks_first(empty, chunks, nothing);
    assert(done[0] == MessageView::Done && failed[0] == MessageView::Error(error));
}

/// What is told of a text that came at once.
pub proof fn whole_texts_are_told_once(text: Seq<char>)
    ensures
        messages_for(text).last() == MessageView::Done,
        trimmed(text).len() == 0 ==> messages_for(text).len() == 1,
        trimmed(text).len() > 0 ==> messages_for(text).len() == 2 && messages_for(text)[0]
            == MessageView::Chunk(trimmed(text)),
{
}

/// A message's content is its text as it is, or the texts of its parts one after another, where
/// these hold anything but whitespace.
pub proof fn contents_are_their_texts(content: MessageContent)
    ensures
        match content {
            MessageContent::Text(text) => content_of(content) == Some(text@),
            MessageContent::Parts(parts) => {
                &&& trimmed(merged(parts@)).len() > 0 ==> content_of(content) == Some(
                    merged(parts@),
                )
                &&& trimmed(merged(parts@)).len() == 0 ==> content_of(content) is None
            },
            MessageContent::Other => content_of(content) is None,
        },
        default_models().len() == 4,
        default_models()[0] == "openrouter/free"@,
        default_models()[1] == "moonshotai/kimi-k2"@,
        default_models()[2] == "deepseek/deepseek-r1-0528"@,
        default_models()[3] == "tngtech/deepseek-r1t2-chimera"@,
{
}

/// Received text goes into the buffer character by character, but for carriage returns.
pub proof fn carriage_returns_are_dropped(a: Seq<char>, b: Seq<char>, c: char)
    ensures
        without_returns(a + b) == without_returns(a) + without_returns(b),
        c != '\r' ==> without_returns(seq![c]) == seq![c],
        without_returns(seq!['\r']).len() == 0,
{
    reveal(Seq::filter);
    let keep = |c: char| c != '\r';
    Seq::filter_distributes_over_add(a, b, keep);
    let none = Seq::<char>::empty();
    let returned = seq!['\r'];
    assert(seq![c].drop_last() =~= none && returned.drop_last() =~= none);
    assert(none.filter(keep) =~= none);
    assert(!keep(returned.last()));
    assert(returned.filter(keep) == none.filter(keep));
    assert(c != '\r' ==> without_returns(seq![c]) =~= seq![c]);
}

} // verus!
