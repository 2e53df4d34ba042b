//! The videos of a channel's Atom feed.

use crate::data::{video_views, Timestamp, Video, VideoView};
use crate::text::{opt_text, same, trim, trimmed};
use crate::time::{parse_rfc3339, parsed_rfc3339};
use crate::urls;
use quick_xml::events::Event;
use quick_xml::Reader;
use vstd::prelude::*;

verus! {

/// A reader of XML.
#[verifier::external_type_specification]
#[verifier::external_body]
#[verifier::reject_recursive_types(R)]
pub struct ExReader<R>(quick_xml::Reader<R>);

/// What is read of a feed at a time.
#[derive(Debug)]
pub enum FeedEvent {
    /// A start tag: its name without a prefix, and its attributes, each with its name without
    /// a prefix and, where it is text, its value; nothing in the place of a malformed one.
    Start { name: String, attributes: Vec<Option<(String, Option<String>)>> },
    /// Text, unescaped; nothing where it cannot be.
    Text(Option<String>),
    /// An end tag and its name without a prefix.
    End { name: String },
    /// Anything else.
    Other,
}

/// What a [`FeedEvent`] holds.
#[verifier::ext_equal]
pub enum EventView {
    Start { name: Seq<char>, attributes: Seq<Option<(Seq<char>, Option<Seq<char>>)>> },
    Text(Option<Seq<char>>),
    End { name: Seq<char> },
    Other,
}

pub open spec fn attribute_view(attribute: Option<(String, Option<String>)>) -> Option<
    (Seq<char>, Option<Seq<char>>),
> {
    match attribute {
        Some((name, value)) => Some((name@, opt_text(value))),
        None => None,
    }
}

pub open spec fn attribute_views(attributes: Seq<Option<(String, Option<String>)>>) -> Seq<
    Option<(Seq<char>, Option<Seq<char>>)>,
> {
    attributes.map_values(|attribute: Option<(String, Option<String>)>| attribute_view(attribute))
}

impl View for FeedEvent {
    type V = EventView;

    open spec fn view(&self) -> EventView {
        match *self {
            FeedEvent::Start { name, attributes } => EventView::Start {
                name: name@,
                attributes: attribute_views(attributes@),
            },
            FeedEvent::Text(text) => EventView::Text(opt_text(text)),
            FeedEvent::End { name } => EventView::End { name: name@ },
            FeedEvent::Other => EventView::Other,
        }
    }
}

/// The events that a reader still gives before the input ends or turns out malformed.
pub uninterp spec fn events_left(reader: Reader<&[u8]>) -> Seq<EventView>;

/// The events that a reader of a text gives before the input ends or turns out malformed.
pub uninterp spec fn xml_events(xml: Seq<char>) -> Seq<EventView>;

/// Calls `quick_xml::Reader::from_str`. What the reader gives is a function of the text.
#[verifier::external_body]
fn open_reader<'a>(xml: &'a str) -> (reader: Reader<&'a [u8]>)
    ensures
        events_left(reader) == xml_events(xml@),
{
    Reader::from_str(xml)
}

/// Calls `quick_xml::Reader::read_event`: the next event, or nothing where the input has ended
/// or is malformed. An event takes at least one byte of the input, so there are finitely many.
#[verifier::external_body]
fn next_event(reader: &mut Reader<&[u8]>) -> (event: Option<FeedEvent>)
    ensures
        match event {
            Some(event) => events_left(*old(reader)).len() > 0 && event@ == events_left(
                *old(reader),
            )[0] && events_left(*final(reader)) == events_left(*old(reader)).skip(1),
            None => events_left(*old(reader)).len() == 0,
        },
{
    let text = |bytes: &[u8]| String::from_utf8_lossy(bytes).into_owned();
    Some(match reader.read_event().ok()? {
        Event::Start(tag) => FeedEvent::Start {
            name: text(tag.local_name().as_ref()),
            attributes: tag.attributes().map(|attribute| attribute.ok().map(|attribute| (
                text(attribute.key.local_name().as_ref()),
                String::from_utf8(attribute.value.into()).ok(),
            ))).collect(),
        },
        Event::Text(content) => FeedEvent::Text(content.unescape().ok().map(String::from)),
        Event::End(tag) => FeedEvent::End { name: text(tag.local_name().as_ref()) },
        Event::Eof => return None,
        _ => FeedEvent::Other,
    })
}

/// The element whose text is awaited.
#[derive(Debug, Clone, Copy, PartialEq, Eq, Structural)]
pub enum FeedTag {
    Title,
    /// The author's name inside an entry.
    Name,
    /// The author's name of the whole feed.
    ChannelName,
    Published,
    VideoId,
}

/// What was read of a feed so far.
#[derive(Debug)]
pub struct FeedParser {
    in_entry: bool,
    video_id: Option<String>,
    title: Option<String>,
    channel_name: Option<String>,
    published: Option<Timestamp>,
    thumbnail: Option<String>,
    tag: Option<FeedTag>,
    got_channel_name: bool,
    videos: Vec<Video>,
}

/// What a [`FeedParser`] holds.
#[verifier::ext_equal]
pub struct ParserView {
    pub in_entry: bool,
    pub video_id: Option<Seq<char>>,
    pub title: Option<Seq<char>>,
    pub channel_name: Option<Seq<char>>,
    pub published: Option<Timestamp>,
    pub thumbnail: Option<Seq<char>>,
    pub tag: Option<FeedTag>,
    pub got_channel_name: bool,
    pub videos: Seq<VideoView>,
}

impl View for FeedParser {
    type V = ParserView;

    closed spec fn view(&self) -> ParserView {
        ParserView {
            in_entry: self.in_entry,
            video_id: opt_text(self.video_id),
            title: opt_text(self.title),
            channel_name: opt_text(self.channel_name),
            published: self.published,
            thumbnail: opt_text(self.thumbnail),
            tag: self.tag,
            got_channel_name: self.got_channel_name,
            videos: video_views(self.videos@),
        }
    }
}

/// Nothing read yet.
pub open spec fn empty_parser() -> ParserView {
    ParserView {
        in_entry: false,
        video_id: None,
        title: None,
        channel_name: None,
        published: None,
        thumbnail: None,
        tag: None,
        got_channel_name: false,
        videos: Seq::empty(),
    }
}

/// The last `url` attribute that is text, or else `before`.
pub open spec fn last_url(
    attributes: Seq<Option<(Seq<char>, Option<Seq<char>>)>>,
    before: Option<Seq<char>>,
) -> Option<Seq<char>>
    decreases attributes.len(),
{
    if attributes.len() == 0 {
        before
    } else {
        let rest = last_url(attributes.drop_last(), before);
        match attributes.last() {
            Some((name, Some(value))) => if name == "url"@ {
                Some(value)
            } else {
                rest
            },
            _ => rest,
        }
    }
}

/// What a start tag changes: an entry begins, a thumbnail is given, or text is awaited.
pub open spec fn after_start(
    parser: ParserView,
    name: Seq<char>,
    attributes: Seq<Option<(Seq<char>, Option<Seq<char>>)>>,
) -> ParserView {
    if name == "entry"@ {
        ParserView {
            in_entry: true,
            video_id: None,
            title: None,
            published: None,
            thumbnail: None,
            ..parser
        }
    } else if name == "title"@ {
        ParserView { tag: Some(FeedTag::Title), ..parser }
    } else if name == "name"@ {
        if parser.in_entry {
            ParserView { tag: Some(FeedTag::Name), ..parser }
        } else if !parser.got_channel_name {
            ParserView { tag: Some(FeedTag::ChannelName), ..parser }
        } else {
            parser
        }
    } else if name == "published"@ {
        if parser.in_entry {
            ParserView { tag: Some(FeedTag::Published), ..parser }
        } else {
            parser
        }
    } else if name == "videoId"@ {
        ParserView { tag: Some(FeedTag::VideoId), ..parser }
    } else if name == "thumbnail"@ {
        ParserView { thumbnail: last_url(attributes, parser.thumbnail), ..parser }
    } else {
        parser
    }
}

/// What trimmed text changes, given the time that it is read as: the value that was awaited.
/// The feed's own name of the channel goes before the entries' names.
pub open spec fn after_text(
    parser: ParserView,
    text: Seq<char>,
    time: Option<Timestamp>,
) -> ParserView {
    match parser.tag {
        Some(FeedTag::Title) => if parser.in_entry {
            ParserView { title: Some(text), ..parser }
        } else {
            parser
        },
        Some(FeedTag::Name) => if parser.in_entry && parser.channel_name is None {
            ParserView { channel_name: Some(text), ..parser }
        } else {
            parser
        },
        Some(FeedTag::ChannelName) => ParserView {
            channel_name: Some(text),
            got_channel_name: true,
            ..parser
        },
        Some(FeedTag::Published) => match time {
            Some(time) => ParserView { published: Some(time), ..parser },
            None => parser,
        },
        Some(FeedTag::VideoId) => ParserView { video_id: Some(text), ..parser },
        None => parser,
    }
}

/// The video of the entry that was read, where it has an identifier, a title and a time.
pub open spec fn entry_video(parser: ParserView, channel_id: Seq<char>) -> Option<VideoView> {
    match (parser.video_id, parser.title, parser.published) {
        (Some(video_id), Some(title), Some(published)) => Some(
            VideoView {
                video_id,
                channel_id,
                channel_name: match parser.channel_name {
                    Some(name) => name,
                    None => "Unknown"@,
                },
                title,
                published,
                thumbnail_url: match parser.thumbnail {
                    Some(url) => url,
                    None => urls::spec_thumbnail_url(video_id),
                },
                duration_seconds: None,
                transcript: None,
                ai_summary: None,
                watched: false,
            },
        ),
        _ => None,
    }
}

/// What an end tag changes: no text is awaited any more, and an entry becomes a video.
pub open spec fn after_end(
    parser: ParserView,
    name: Seq<char>,
    channel_id: Seq<char>,
) -> ParserView {
    if name == "entry"@ {
        ParserView {
            in_entry: false,
            tag: None,
            videos: match entry_video(parser, channel_id) {
                Some(video) => parser.videos.push(video),
                None => parser.videos,
            },
            ..parser
        }
    } else {
        ParserView { tag: None, ..parser }
    }
}

/// What an event changes, given the time that its text is read as.
pub open spec fn after_event(
    parser: ParserView,
    event: EventView,
    channel_id: Seq<char>,
    time: Option<Timestamp>,
) -> ParserView {
    match event {
        EventView::Start { name, attributes } => after_start(parser, name, attributes),
        EventView::Text(Some(text)) => after_text(parser, trimmed(text), time),
        EventView::Text(None) => parser,
        EventView::End { name } => after_end(parser, name, channel_id),
        EventView::Other => parser,
    }
}

/// The time that the text of an event is read as.
pub open spec fn event_time(event: EventView) -> Option<Timestamp> {
    match event {
        EventView::Text(Some(text)) => parsed_rfc3339(trimmed(text)),
        _ => None,
    }
}

/// What is known after the first `n` events.
pub open spec fn after_events(events: Seq<EventView>, n: nat, channel_id: Seq<char>) -> ParserView
    decreases n,
{
    if n == 0 {
        empty_parser()
    } else {
        after_event(
            after_events(events, (n - 1) as nat, channel_id),
            events[n - 1],
            channel_id,
            event_time(events[n - 1]),
        )
    }
}

/// The videos that the events of a feed describe.
pub open spec fn feed_videos(events: Seq<EventView>, channel_id: Seq<char>) -> Seq<VideoView> {
    after_events(events, events.len(), channel_id).videos
}

impl FeedParser {
    /// Nothing read yet.
    pub fn new() -> (r: Self)
        ensures
            r@ == empty_parser(),
    {
        let r = FeedParser {
            in_entry: false,
            video_id: None,
            title: None,
            channel_name: None,
            published: None,
            thumbnail: None,
            tag: None,
            got_channel_name: false,
            videos: Vec::new(),
        };
        assert(r@ =~= empty_parser());
        r
    }

    /// Takes in a start tag.
    pub fn start(&mut self, name: &str, attributes: &Vec<Option<(String, Option<String>)>>)
        ensures
            final(self)@ == after_start(old(self)@, name@, attribute_views(attributes@)),
    {
        if same(name, "entry") {
            self.in_entry = true;
            self.video_id = None;
            self.title = None;
            self.published = None;
            self.thumbnail = None;
        } else if same(name, "title") {
            self.tag = Some(FeedTag::Title);
        } else if same(name, "name") {
            if self.in_entry {
                self.tag = Some(FeedTag::Name);
            } else if !self.got_channel_name {
                self.tag = Some(FeedTag::ChannelName);
            }
        } else if same(name, "published") {
            if self.in_entry {
                self.tag = Some(FeedTag::Published);
            }
        } else if same(name, "videoId") {
            self.tag = Some(FeedTag::VideoId);
        } else if same(name, "thumbnail") {
            let ghost all = attribute_views(attributes@);
            let mut end: usize = attributes.len();
            assert(all.take(end as int) =~= all);
            while end > 0
                invariant
                    end <= attributes.len(),
                    all == attribute_views(attributes@),
                    self@ == old(self)@,
                    name@ == "thumbnail"@,
                    name@ != "entry"@,
                    name@ != "title"@,
                    name@ != "name"@,
                    name@ != "published"@,
                    name@ != "videoId"@,
                    last_url(all, self@.thumbnail) == last_url(
                        all.take(end as int),
                        self@.thumbnail,
                    ),
                decreases end,
            {
                assert(all.take(end as int).drop_last() =~= all.take(end - 1));
                let attribute = &attributes[end - 1];
                assert(all.take(end as int).last() == attribute_view(*attribute));
                if let Some((key, Some(url))) = attribute {
                    if same(key.as_str(), "url") {
                        self.thumbnail = Some(url.clone());
                        assert(self@ =~= (ParserView {
                            thumbnail: last_url(all, old(self)@.thumbnail),
                            ..old(self)@
                        }));
                        return ;
                    }
                }
                end -= 1;
            }
            assert(self@ =~= (ParserView {
                thumbnail: last_url(all, old(self)@.thumbnail),
                ..old(self)@
            }));
        }
    }

    /// Takes in trimmed text, given the time that it is read as.
    pub fn text(&mut self, text: &str, time: Option<Timestamp>)
        ensures
            final(self)@ == after_text(old(self)@, text@, time),
    {
        match self.tag {
            Some(FeedTag::Title) => {
                if self.in_entry {
                    self.title = Some(text.to_owned());
                }
            },
            Some(FeedTag::Name) => {
                if self.in_entry && self.channel_name.is_none() {
                    self.channel_name = Some(text.to_owned());
                }
            },
            Some(FeedTag::ChannelName) => {
                self.channel_name = Some(text.to_owned());
                self.got_channel_name = true;
            },
            Some(FeedTag::Published) => {
                if time.is_some() {
                    self.published = time;
                }
            },
            Some(FeedTag::VideoId) => {
                self.video_id = Some(text.to_owned());
            },
            None => {},
        }
    }

    /// Takes in an end tag.
    pub fn end(&mut self, name: &str, channel_id: &str)
        ensures
            final(self)@ == after_end(old(self)@, name@, channel_id@),
    {
        if same(name, "entry") {
            if let (Some(video_id), Some(title), Some(published)) = (
                &self.video_id,
                &self.title,
                self.published,
            ) {
                let video = Video {
                    video_id: video_id.clone(),
                    channel_id: channel_id.to_owned(),
                    channel_name: match &self.channel_name {
                        Some(name) => name.clone(),
                        None => "Unknown".to_owned(),
                    },
                    title: title.clone(),
                    published,
                    thumbnail_url: match &self.thumbnail {
                        Some(url) => url.clone(),
                        None => urls::thumbnail_url(video_id.as_str()),
                    },
                    duration_seconds: None,
                    transcript: None,
                    ai_summary: None,
                    watched: false,
                };
                let ghost before = video_views(self.videos@);
                self.videos.push(video);
                assert(video_views(self.videos@) =~= before.push(video@));
            }
            self.in_entry = false;
        }
        self.tag = None;
    }

    /// Takes in an event.
    pub fn event(&mut self, event: &FeedEvent, channel_id: &str)
        ensures
            final(self)@ == after_event(old(self)@, event@, channel_id@, event_time(event@)),
    {
        match event {
            FeedEvent::Start { name, attributes } => {
                self.start(name.as_str(), attributes);
            },
            FeedEvent::Text(Some(text)) => {
                let text = trim(text.as_str());
                let time = parse_rfc3339(text);
                self.text(text, time);
            },
            FeedEvent::Text(None) => {},
            FeedEvent::End { name } => {
                self.end(name.as_str(), channel_id);
            },
            FeedEvent::Other => {},
        }
    }

    /// The videos of the entries that were read.
    pub fn into_videos(self) -> (videos: Vec<Video>)
        ensures
            video_views(videos@) == self@.videos,
    {
        self.videos
    }
}

/// The videos of a channel's Atom feed. A malformed feed is read up to where it is malformed.
pub fn parse_feed(xml: &str, channel_id: &str) -> (videos: Vec<Video>)
    ensures
        video_views(videos@) == feed_videos(xml_events(xml@), channel_id@),
{
    let ghost events = xml_events(xml@);
    let mut reader = open_reader(xml);
    let mut parser = FeedParser::new();
    let ghost mut n: nat = 0;
    assert(events.skip(0) =~= events);
    loop
        invariant_except_break
            events_left(reader) == events.skip(n as int),
        invariant
            events == xml_events(xml@),
            n <= events.len(),
            parser@ == after_events(events, n, channel_id@),
        ensures
            n == events.len(),
        decreases events_left(reader).len(),
    {
        match next_event(&mut reader) {
            Some(event) => {
                parser.event(&event, channel_id);
                proof {
                    assert(events.skip(n as int).skip(1) =~= events.skip(n as int + 1));
                    n = n + 1;
                }
            },
            None => {
                break;
            },
        }
    }
    parser.into_videos()
}

/// Every video of a channel's feed belongs to the channel, has no duration, and is kept
/// whatever follows it in the feed.
pub proof fn feed_videos_belong_to_the_channel(
    events: Seq<EventView>,
    n: nat,
    m: nat,
    channel_id: Seq<char>,
)
    requires
        n <= m <= events.len(),
    ensures
        after_events(events, n, channel_id).videos.is_prefix_of(
            after_events(events, m, channel_id).videos,
        ),
        forall|i: int|
            0 <= i < after_events(events, m, channel_id).videos.len() ==> {
                let video = #[trigger] after_events(events, m, channel_id).videos[i];
                video.channel_id == channel_id && video.duration_seconds is None
            },
    decreases m,
{
    if n < m {
        feed_videos_belong_to_the_channel(events, n, (m - 1) as nat, channel_id);
        let before = after_events(events, (m - 1) as nat, channel_id).videos;
        let after = after_events(events, m, channel_id).videos;
        let start = after_events(events, n, channel_id).videos;
        assert(after.take(before.len() as int) =~= before);
        assert(after.subrange(0, start.len() as int) =~= before.subrange(0, start.len() as int));
    } else if m > 0 {
        feed_videos_belong_to_the_channel(events, (m - 1) as nat, (m - 1) as nat, channel_id);
        let all = after_events(events, m, channel_id).videos;
        assert(all.subrange(0, all.len() as int) =~= all);
    }
}

/// Of several addresses among attributes the last one counts; an attribute of another name,
/// one whose value is no text, and a malformed one give none.
pub proof fn the_last_address_counts(
    first: Seq<Option<(Seq<char>, Option<Seq<char>>)>>,
    second: Seq<Option<(Seq<char>, Option<Seq<char>>)>>,
    name: Seq<char>,
    value: Seq<char>,
    before: Option<Seq<char>>,
)
    ensures
        last_url(first + second, before) == last_url(second, last_url(first, before)),
        last_url(Seq::empty(), before) == before,
        last_url(seq![Some(("url"@, Some(value)))], before) == Some(value),
        name != "url"@ ==> last_url(seq![Some((name, Some(value)))], before) == before,
        last_url(seq![Some((name, None))], before) == before,
        last_url(seq![None], before) == before,
    decreases second.len(),
{
    let none = Seq::<Option<(Seq<char>, Option<Seq<char>>)>>::empty();
    assert(last_url(none, before) == before);
    assert(seq![Some(("url"@, Some(value)))].drop_last() =~= none);
    assert(seq![Some((name, Some(value)))].drop_last() =~= none);
    assert(seq![Some((name, None::<Seq<char>>))].drop_last() =~= none);
    assert(seq![None::<(Seq<char>, Option<Seq<char>>)>].drop_last() =~= none);
    if second.len() == 0 {
        assert(first + second =~= first);
    } else {
        the_last_address_counts(first, second.drop_last(), name, value, before);
        assert((first + second).drop_last() =~= first + second.drop_last());
        assert((first + second).last() == second.last());
    }
}

proof fn lemma_same_events(
    a: Seq<EventView>,
    b: Seq<EventView>,
    n: nat,
    channel_id: Seq<char>,
)
    requires
        forall|i: int| 0 <= i < n ==> #[trigger] a[i] == b[i],
    ensures
        after_events(a, n, channel_id) == after_events(b, n, channel_id),
    decreases n,
{
    if n > 0 {
        lemma_same_events(a, b, (n - 1) as nat, channel_id);
        assert(a[n - 1] == b[n - 1]);
    }
}

/// Events are read one by one, from the first to the last, and a text is read as the time that
/// it tells without its padding.
pub proof fn events_are_read_one_by_one(
    events: Seq<EventView>,
    event: EventView,
    text: Seq<char>,
    channel_id: Seq<char>,
)
    ensures
        feed_videos(Seq::empty(), channel_id) == Seq::<VideoView>::empty(),
        after_events(events.push(event), events.len() + 1, channel_id) == after_event(
            after_events(events, events.len(), channel_id),
            event,
            channel_id,
            event_time(event),
        ),
        feed_videos(events, channel_id) == after_events(events, events.len(), channel_id).videos,
        event_time(EventView::Text(Some(text))) == parsed_rfc3339(trimmed(text)),
{
    let all = events.push(event);
    assert forall|i: int| 0 <= i < events.len() implies #[trigger] all[i] == events[i] by {}
    lemma_same_events(all, events, events.len(), channel_id);
    assert(all[events.len() as int] == event);
}

/// What is known after an element that holds nothing but a text.
pub open spec fn after_element(
    parser: ParserView,
    name: Seq<char>,
    text: Seq<char>,
    channel_id: Seq<char>,
) -> ParserView {
    let started = after_event(
        parser,
        EventView::Start { name, attributes: Seq::empty() },
        channel_id,
        None,
    );
    let read = after_event(
        started,
        EventView::Text(Some(text)),
        channel_id,
        parsed_rfc3339(trimmed(text)),
    );
    after_event(read, EventView::End { name }, channel_id, None)
}

/// Inside an entry, an element gives it the identifier, the title, the time or, where the
/// channel has no name yet, the name: the element's text without its padding.
pub proof fn elements_tell_what_an_entry_holds(
    parser: ParserView,
    text: Seq<char>,
    channel_id: Seq<char>,
)
    requires
        parser.in_entry,
        parser.tag is None,
    ensures
        after_element(parser, "videoId"@, text, channel_id) == (ParserView {
            video_id: Some(trimmed(text)),
            ..parser
        }),
        after_element(parser, "title"@, text, channel_id) == (ParserView {
            title: Some(trimmed(text)),
            ..parser
        }),
        parsed_rfc3339(trimmed(text)) is Some ==> after_element(
            parser,
            "published"@,
            text,
            channel_id,
        ) == (ParserView { published: parsed_rfc3339(trimmed(text)), ..parser }),
        parsed_rfc3339(trimmed(text)) is None ==> after_element(
            parser,
            "published"@,
            text,
            channel_id,
        ) == parser,
        parser.channel_name is None ==> after_element(parser, "name"@, text, channel_id) == (
        ParserView { channel_name: Some(trimmed(text)), ..parser }),
        parser.channel_name is Some ==> after_element(parser, "name"@, text, channel_id) == parser,
{
    lemma_names_differ();
}

/// Outside of entries only the first name counts: it is the channel's, whatever the entries
/// say. Titles and times there are those of the feed and are passed over.
pub proof fn the_first_name_of_a_feed_counts(
    parser: ParserView,
    text: Seq<char>,
    channel_id: Seq<char>,
)
    requires
        !parser.in_entry,
        parser.tag is None,
    ensures
        !parser.got_channel_name ==> after_element(parser, "name"@, text, channel_id) == (
        ParserView { channel_name: Some(trimmed(text)), got_channel_name: true, ..parser }),
        parser.got_channel_name ==> after_element(parser, "name"@, text, channel_id) == parser,
        after_element(parser, "title"@, text, channel_id) == parser,
        after_element(parser, "published"@, text, channel_id) == parser,
{
    lemma_names_differ();
}

proof fn lemma_names_differ()
    ensures
        "entry"@ != "title"@,
        "entry"@ != "name"@,
        "entry"@ != "published"@,
        "entry"@ != "videoId"@,
        "entry"@ != "thumbnail"@,
        "title"@ != "name"@,
        "title"@ != "published"@,
        "title"@ != "videoId"@,
        "title"@ != "thumbnail"@,
        "name"@ != "published"@,
        "name"@ != "videoId"@,
        "name"@ != "thumbnail"@,
        "published"@ != "videoId"@,
        "published"@ != "thumbnail"@,
        "videoId"@ != "thumbnail"@,
{
    reveal_strlit("entry");
    reveal_strlit("title");
    reveal_strlit("name");
    reveal_strlit("published");
    reveal_strlit("videoId");
    reveal_strlit("thumbnail");
    assert("entry"@[0] == 'e');
    assert("title"@[0] == 't' && "title"@[1] == 'i');
    assert("name"@[0] == 'n');
    assert("published"@[0] == 'p');
    assert("videoId"@[0] == 'v');
    assert("thumbnail"@[0] == 't' && "thumbnail"@[1] == 'h');
}

/// An entry begins without values but for the channel's name, a thumbnail's address is taken
/// from its tag, and any other tag, a text that cannot be unescaped and anything else change
/// nothing.
pub proof fn entries_begin_without_values(
    parser: ParserView,
    name: Seq<char>,
    attributes: Seq<Option<(Seq<char>, Option<Seq<char>>)>>,
    channel_id: Seq<char>,
)
    ensures
        after_event(
            parser,
            EventView::Start { name: "entry"@, attributes },
            channel_id,
            None,
        ) == (ParserView {
            in_entry: true,
            video_id: None,
            title: None,
            published: None,
            thumbnail: None,
            ..parser
        }),
        after_event(
            parser,
            EventView::Start { name: "thumbnail"@, attributes },
            channel_id,
            None,
        ) == (ParserView { thumbnail: last_url(attributes, parser.thumbnail), ..parser }),
        name != "entry"@ && name != "title"@ && name != "name"@ && name != "published"@ && name
            != "videoId"@ && name != "thumbnail"@ ==> after_event(
            parser,
            EventView::Start { name, attributes },
            channel_id,
            None,
        ) == parser,
        after_event(parser, EventView::Text(None), channel_id, None) == parser,
        after_event(parser, EventView::Other, channel_id, None) == parser,
{
    lemma_names_differ();
}

/// An entry that ends with an identifier, a title and a time becomes the last video of the
/// channel, with what was read of it; without one of the three it becomes none.
pub proof fn complete_entries_become_videos(parser: ParserView, channel_id: Seq<char>)
    ensures
        ({
            let after = after_event(parser, EventView::End { name: "entry"@ }, channel_id, None);
            let complete = parser.video_id is Some && parser.title is Some && parser.published
                is Some;
            &&& !after.in_entry && after.tag is None
            &&& after.channel_name == parser.channel_name && after.got_channel_name
                == parser.got_channel_name
            &&& !complete ==> after.videos == parser.videos
            &&& complete ==> {
                let video = after.videos.last();
                &&& after.videos == parser.videos.push(video)
                &&& parser.video_id == Some(video.video_id)
                &&& parser.title == Some(video.title)
                &&& parser.published == Some(video.published)
                &&& video.channel_id == channel_id
                &&& parser.channel_name is Some ==> parser.channel_name == Some(video.channel_name)
                &&& parser.channel_name is None ==> video.channel_name == "Unknown"@
                &&& parser.thumbnail is Some ==> parser.thumbnail == Some(video.thumbnail_url)
                &&& parser.thumbnail is None ==> video.thumbnail_url == urls::spec_thumbnail_url(
                    video.video_id,
                )
                &&& video.duration_seconds is None && video.transcript is None && video.ai_summary
                    is None && !video.watched
            }
        }),
{
}

/// Before anything is read there is neither an entry nor a value of one, no text is awaited,
/// and there are no videos.
pub proof fn reading_begins_with_nothing()
    ensures
        ({
            let parser = empty_parser();
            &&& !parser.in_entry && parser.tag is None && !parser.got_channel_name
            &&& parser.video_id is None && parser.title is None && parser.published is None
            &&& parser.channel_name is None && parser.thumbnail is None
            &&& parser.videos.len() == 0
        }),
{
}

} // verus!
