//! Comments on a video, as one text.

use crate::data::Timestamp;
use crate::feed::fetcher::{ApiRequest, ApiRequestView};
use crate::text::{
    decimal, has_text, occurs_at, opt_text, push_decimal, replace, replaced,
    replacing_goes_character_by_character, to_decimal, trim, trimmed,
};
use crate::time::{date_text, has_date, utc_date};
use vstd::prelude::*;

verus! {

/// How many comment threads are asked for at a time.
pub const COMMENTS_PAGE_SIZE: u32 = 50;

/// How many comment threads are loaded at most, but for what a page holds too many.
pub const MAX_COMMENT_THREADS: usize = 100;

/// What a comment says.
#[derive(Debug)]
pub struct CommentSnippet {
    pub author_display_name: Option<String>,
    pub text_display: Option<String>,
    pub published_at: Option<Timestamp>,
    pub like_count: Option<u32>,
}

/// A comment.
#[derive(Debug)]
pub struct CommentItem {
    pub snippet: Option<CommentSnippet>,
}

/// What a thread begins with, and how many replies it has in all.
#[derive(Debug)]
pub struct CommentThreadSnippet {
    pub top_level_comment: Option<CommentItem>,
    pub total_reply_count: Option<u32>,
}

/// Those of a thread's replies that were loaded.
#[derive(Debug)]
pub struct CommentThreadReplies {
    pub comments: Vec<CommentItem>,
}

/// A comment and the replies to it.
#[derive(Debug)]
pub struct CommentThreadItem {
    pub snippet: Option<CommentThreadSnippet>,
    pub replies: Option<CommentThreadReplies>,
}

/// A page of comment threads.
#[derive(Debug)]
pub struct CommentThreadsResponse {
    pub items: Vec<CommentThreadItem>,
    pub next_page_token: Option<String>,
}

/// Whether a comment was published on a day that has a date, if it says when.
pub open spec fn comment_dated(comment: CommentItem) -> bool {
    match comment.snippet {
        Some(snippet) => match snippet.published_at {
            Some(at) => has_date(at.secs as int),
            None => true,
        },
        None => true,
    }
}

/// Whether all comments of a thread that say when they were published have a date.
pub open spec fn thread_dated(item: CommentThreadItem) -> bool {
    &&& match item.snippet {
        Some(snippet) => match snippet.top_level_comment {
            Some(comment) => comment_dated(comment),
            None => true,
        },
        None => true,
    }
    &&& forall|i: int|
        0 <= i < loaded_replies(item).len() ==> comment_dated(#[trigger] loaded_replies(item)[i])
}

/// The replies of a thread that were loaded.
pub open spec fn loaded_replies(item: CommentThreadItem) -> Seq<CommentItem> {
    match item.replies {
        Some(replies) => replies.comments@,
        None => Seq::empty(),
    }
}

/// The date of a comment, where it says when it was published.
pub open spec fn comment_date(snippet: CommentSnippet) -> Option<Seq<char>> {
    match snippet.published_at {
        Some(at) => Some(utc_date(at.secs, "%Y-%m-%d"@)),
        None => None,
    }
}

pub open spec fn text_or_default(text: Option<String>, default: Seq<char>) -> Seq<char> {
    match text {
        Some(text) => text@,
        None => default,
    }
}

/// The two lines of a comment, given its date: its number (a dash for a reply), its author,
/// likes and date; then its text, the lines of which are indented.
pub open spec fn comment_lines(
    index: nat,
    snippet: CommentSnippet,
    indent: Seq<char>,
    date: Option<Seq<char>>,
) -> Seq<char> {
    let prefix = if index == 0 {
        "-"@
    } else {
        decimal(index) + "."@
    };
    let likes = match snippet.like_count {
        Some(count) => decimal(count as nat),
        None => decimal(0),
    };
    let published = match date {
        Some(date) => " | "@ + date,
        None => Seq::empty(),
    };
    indent + prefix + " "@ + text_or_default(snippet.author_display_name, "Unknown"@) + " | "@
        + likes + " likes"@ + published + "\n"@ + indent + replaced(
        trimmed(text_or_default(snippet.text_display, Seq::empty())),
        '\n',
        "\n  "@,
    ) + "\n"@
}

/// A comment, as text.
pub open spec fn comment_text(index: nat, comment: CommentItem, indent: Seq<char>) -> Seq<char> {
    match comment.snippet {
        Some(snippet) => comment_lines(index, snippet, indent, comment_date(snippet)),
        None => Seq::empty(),
    }
}

/// The first `n` replies, as text.
pub open spec fn replies_text(replies: Seq<CommentItem>, n: nat) -> Seq<char>
    decreases n,
{
    if n == 0 {
        Seq::empty()
    } else {
        replies_text(replies, (n - 1) as nat) + comment_text(0, replies[n - 1], "  "@)
    }
}

/// The line on replies that were not loaded.
pub open spec fn missing_replies_text(total: Option<u32>, loaded: u32) -> Seq<char> {
    match total {
        Some(total) => if total > loaded {
            "  ... "@ + decimal((total - loaded) as nat)
                + " more replies not loaded by YouTube in this response\n"@
        } else {
            Seq::empty()
        },
        None => Seq::empty(),
    }
}

/// The first `n` threads, as text, with an empty line between threads. Threads are numbered
/// by their place, those without a comment included.
pub open spec fn threads_text(items: Seq<CommentThreadItem>, n: nat) -> Seq<char>
    decreases n,
{
    if n == 0 {
        Seq::empty()
    } else {
        let before = threads_text(items, (n - 1) as nat);
        let item = items[n - 1];
        match item.snippet {
            Some(snippet) => match snippet.top_level_comment {
                Some(comment) => {
                    let gap = if before.len() == 0 {
                        Seq::empty()
                    } else {
                        "\n"@
                    };
                    let replies = loaded_replies(item);
                    before + gap + comment_text(n, comment, Seq::empty()) + replies_text(
                        replies,
                        replies.len(),
                    ) + missing_replies_text(snippet.total_reply_count, replies.len() as u32)
                },
                None => before,
            },
            None => before,
        }
    }
}

/// All threads, as text.
pub open spec fn formatted_threads(items: Seq<CommentThreadItem>) -> Seq<char> {
    let text = threads_text(items, items.len());
    if text.len() == 0 {
        "No public comments are available for this video."@
    } else {
        text
    }
}

/// Appends the two lines of a comment, given its date.
pub fn push_comment_lines(
    output: &mut String,
    index: usize,
    snippet: &CommentSnippet,
    indent: &str,
    date: Option<String>,
)
    ensures
        final(output)@ == old(output)@ + comment_lines(
            index as nat,
            *snippet,
            indent@,
            opt_text(date),
        ),
{
    let author = match &snippet.author_display_name {
        Some(author) => author.as_str(),
        None => "Unknown",
    };
    let text = match &snippet.text_display {
        Some(text) => trim(text.as_str()),
        None => trim(""),
    };
    proof {
        reveal_strlit("");
        assert(""@ =~= Seq::<char>::empty());
    }
    let like_count: u64 = match snippet.like_count {
        Some(count) => count as u64,
        None => 0,
    };
    let body = replace(text, '\n', "\n  ");
    let mut lines = indent.to_owned();
    if index == 0 {
        lines.append("-");
    } else {
        push_decimal(&mut lines, index as u64);
        lines.append(".");
    }
    lines.append(" ");
    lines.append(author);
    lines.append(" | ");
    push_decimal(&mut lines, like_count);
    lines.append(" likes");
    if let Some(date) = date {
        lines.append(" | ");
        lines.append(date.as_str());
    }
    lines.append("\n");
    lines.append(indent);
    lines.append(body.as_str());
    lines.append("\n");
    assert(lines@ =~= comment_lines(index as nat, *snippet, indent@, opt_text(date)));
    output.append(lines.as_str());
}

/// Appends a comment.
pub fn push_formatted_comment(
    output: &mut String,
    index: usize,
    comment: &CommentItem,
    indent: &str,
)
    requires
        comment_dated(*comment),
    ensures
        final(output)@ == old(output)@ + comment_text(index as nat, *comment, indent@),
{
    match &comment.snippet {
        Some(snippet) => {
            let date = match snippet.published_at {
                Some(at) => Some(date_text(at.secs, "%Y-%m-%d")),
                None => None,
            };
            push_comment_lines(output, index, snippet, indent, date);
        },
        None => {
            assert(output@ =~= old(output)@ + Seq::<char>::empty());
        },
    }
}

/// Appends a thread that begins with a comment, numbered by its place.
fn push_thread(
    output: &mut String,
    number: usize,
    comment: &CommentItem,
    replies: &Vec<CommentItem>,
    total_reply_count: Option<u32>,
)
    requires
        comment_dated(*comment),
        forall|i: int| 0 <= i < replies@.len() ==> comment_dated(#[trigger] replies@[i]),
    ensures
        final(output)@ == old(output)@ + (if old(output)@.len() == 0 {
            Seq::empty()
        } else {
            "\n"@
        }) + comment_text(number as nat, *comment, Seq::empty()) + replies_text(
            replies@,
            replies@.len(),
        ) + missing_replies_text(total_reply_count, replies@.len() as u32),
{
    let ghost gap = if output@.len() == 0 {
        Seq::empty()
    } else {
        "\n"@
    };
    if !output.as_str().is_empty() {
        output.append("\n");
    }
    assert(output@ =~= old(output)@ + gap);
    proof {
        reveal_strlit("");
        assert(""@ =~= Seq::<char>::empty());
    }
    push_formatted_comment(output, number, comment, "");
    let ghost before = output@;
    let mut i: usize = 0;
    assert(before + replies_text(replies@, 0) =~= before);
    while i < replies.len()
        invariant
            i <= replies.len(),
            forall|k: int| 0 <= k < replies@.len() ==> comment_dated(#[trigger] replies@[k]),
            output@ == before + replies_text(replies@, i as nat),
        decreases replies.len() - i,
    {
        push_formatted_comment(output, 0, &replies[i], "  ");
        assert(output@ =~= before + replies_text(replies@, (i + 1) as nat));
        i += 1;
    }
    let loaded: u32 = replies.len() as u32;
    let total: u32 = match total_reply_count {
        Some(total) => total,
        None => loaded,
    };
    if total > loaded {
        let mut line = "  ... ".to_owned();
        push_decimal(&mut line, (total - loaded) as u64);
        line.append(" more replies not loaded by YouTube in this response\n");
        output.append(line.as_str());
    } else {
        assert(output@ =~= output@ + Seq::<char>::empty());
    }
}

/// The comment threads of a video, as one text.
pub fn format_comment_threads(items: &Vec<CommentThreadItem>) -> (r: String)
    requires
        forall|i: int| 0 <= i < items@.len() ==> thread_dated(#[trigger] items@[i]),
    ensures
        r@ == formatted_threads(items@),
{
    let mut output = String::new();
    let mut i: usize = 0;
    while i < items.len()
        invariant
            i <= items.len(),
            forall|k: int| 0 <= k < items@.len() ==> thread_dated(#[trigger] items@[k]),
            output@ == threads_text(items@, i as nat),
        decreases items.len() - i,
    {
        let item = &items[i];
        if let Some(snippet) = &item.snippet {
            if let Some(comment) = &snippet.top_level_comment {
                match &item.replies {
                    Some(replies) => {
                        assert(loaded_replies(*item) == replies.comments@);
                        push_thread(
                            &mut output,
                            i + 1,
                            comment,
                            &replies.comments,
                            snippet.total_reply_count,
                        );
                    },
                    None => {
                        let replies: Vec<CommentItem> = Vec::new();
                        push_thread(
                            &mut output,
                            i + 1,
                            comment,
                            &replies,
                            snippet.total_reply_count,
                        );
                    },
                }
            }
        }
        i += 1;
    }
    if output.as_str().is_empty() {
        "No public comments are available for this video.".to_owned()
    } else {
        output
    }
}

/// The comment threads that were loaded so far.
#[derive(Debug)]
pub struct CommentPages {
    pub comments: Vec<CommentThreadItem>,
    pub next_page_token: Option<String>,
    /// Whether there is nothing left to load.
    pub finished: bool,
}

/// How many threads the next page is to hold.
pub open spec fn next_page_size(loaded: nat) -> nat {
    let left = MAX_COMMENT_THREADS - loaded;
    if left < COMMENTS_PAGE_SIZE {
        left as nat
    } else {
        COMMENTS_PAGE_SIZE as nat
    }
}

/// The query of the request for a page.
pub open spec fn page_query(
    video_id: Seq<char>,
    api_key: Seq<char>,
    loaded: nat,
    token: Option<Seq<char>>,
) -> Seq<(Seq<char>, Seq<char>)> {
    let query = seq![
        ("part"@, "snippet,replies"@),
        ("videoId"@, video_id),
        ("maxResults"@, decimal(next_page_size(loaded))),
        ("order"@, "relevance"@),
        ("textFormat"@, "plainText"@),
        ("key"@, api_key),
    ];
    match token {
        Some(token) => query.push(("pageToken"@, token)),
        None => query,
    }
}

impl CommentPages {
    /// Nothing loaded yet.
    pub fn new() -> (r: Self)
        ensures
            r.comments@ == Seq::<CommentThreadItem>::empty(),
            r.next_page_token is None,
            !r.finished,
    {
        CommentPages { comments: Vec::new(), next_page_token: None, finished: false }
    }

    /// The request for the next page, while threads are left to load.
    pub fn next_request(&self, video_id: &str, api_key: &str) -> (r: Option<ApiRequest>)
        ensures
            match r {
                Some(request) => {
                    &&& !self.finished
                    &&& self.comments@.len() < MAX_COMMENT_THREADS
                    &&& request@ == (ApiRequestView {
                        url: "https://www.googleapis.com/youtube/v3/commentThreads"@,
                        query: page_query(
                            video_id@,
                            api_key@,
                            self.comments@.len(),
                            opt_text(self.next_page_token),
                        ),
                    })
                },
                None => self.finished || self.comments@.len() >= MAX_COMMENT_THREADS,
            },
    {
        if self.finished || self.comments.len() >= MAX_COMMENT_THREADS {
            return None;
        }
        let left: u64 = (MAX_COMMENT_THREADS - self.comments.len()) as u64;
        let size: u64 = if left < COMMENTS_PAGE_SIZE as u64 {
            left
        } else {
            COMMENTS_PAGE_SIZE as u64
        };
        let page_size = to_decimal(size);
        let request = ApiRequest::to("https://www.googleapis.com/youtube/v3/commentThreads").with(
            "part",
            "snippet,replies",
        ).with("videoId", video_id).with("maxResults", page_size.as_str()).with(
            "order",
            "relevance",
        ).with("textFormat", "plainText").with("key", api_key);
        let ghost query = page_query(video_id@, api_key@, self.comments@.len(), None);
        assert(request@.query =~= query);
        match &self.next_page_token {
            Some(token) => Some(request.with("pageToken", token.as_str())),
            None => Some(request),
        }
    }

    /// Takes in a page. An empty page, and one that no other follows, is the last.
    pub fn accept(self, page: CommentThreadsResponse) -> (r: Self)
        ensures
            page.items@.len() == 0 ==> r.comments@ == self.comments@ && r.finished,
            page.items@.len() > 0 ==> r.comments@ == self.comments@ + page.items@
                && r.next_page_token == page.next_page_token && r.finished == (self.finished
                || page.next_page_token is None),
    {
        let mut r = self;
        let mut page = page;
        if page.items.len() == 0 {
            r.finished = true;
            return r;
        }
        r.comments.append(&mut page.items);
        r.next_page_token = page.next_page_token;
        if r.next_page_token.is_none() {
            r.finished = true;
        }
        r
    }
}

/// A comment is shown in two parts: a heading with a dash for a reply and the number otherwise,
/// the author, the likes and the date; and below it, on lines of its own, its text. A text of
/// one line stands there as it is, but for whitespace at its ends.
pub proof fn comments_show_their_text_below_a_heading(
    index: nat,
    snippet: CommentSnippet,
    indent: Seq<char>,
    date: Seq<char>,
    text: Seq<char>,
)
    requires
        snippet.text_display matches Some(given) && trimmed(given@) == text,
        !text.contains('\n'),
    ensures
        ({
            let author = match snippet.author_display_name {
                Some(name) => name@,
                None => "Unknown"@,
            };
            let likes = match snippet.like_count {
                Some(count) => decimal(count as nat),
                None => "0"@,
            };
            &&& comment_lines(0, snippet, indent, Some(date)) == indent + "- "@ + author + " | "@
                + likes + " likes | "@ + date + "\n"@ + indent + text + "\n"@
            &&& comment_lines(0, snippet, indent, None) == indent + "- "@ + author + " | "@ + likes
                + " likes\n"@ + indent + text + "\n"@
            &&& index > 0 ==> comment_lines(index, snippet, indent, Some(date)) == indent + decimal(
                index,
            ) + ". "@ + author + " | "@ + likes + " likes | "@ + date + "\n"@ + indent + text
                + "\n"@
            &&& index > 0 ==> comment_lines(index, snippet, indent, None) == indent + decimal(index)
                + ". "@ + author + " | "@ + likes + " likes\n"@ + indent + text + "\n"@
        }),
{
    replacing_goes_character_by_character(text, Seq::empty(), 'x', '\n', "\n  "@);
    assert(decimal(0) =~= "0"@) by {
        reveal_strlit("0");
    }
    let author = match snippet.author_display_name {
        Some(name) => name@,
        None => "Unknown"@,
    };
    let likes = match snippet.like_count {
        Some(count) => decimal(count as nat),
        None => "0"@,
    };
    lemma_heading(indent, index, author + " | "@ + likes, date);
    let number = decimal(index);
    assert(indent + "- "@ + author + " | "@ + likes =~= indent + "- "@ + (author + " | "@ + likes));
    assert(indent + number + ". "@ + author + " | "@ + likes =~= indent + number + ". "@ + (author
        + " | "@ + likes));
    assert(indent + "-"@ + " "@ + author + " | "@ + likes =~= indent + "-"@ + " "@ + (author
        + " | "@ + likes));
    assert(indent + (number + "."@) + " "@ + author + " | "@ + likes =~= indent + (number + "."@)
        + " "@ + (author + " | "@ + likes));
}

proof fn lemma_heading(indent: Seq<char>, index: nat, middle: Seq<char>, date: Seq<char>)
    ensures
        indent + "-"@ + " "@ + middle + " likes"@ + (" | "@ + date) + "\n"@ == indent + "- "@ + middle
            + " likes | "@ + date + "\n"@,
        indent + "-"@ + " "@ + middle + " likes"@ + Seq::empty() + "\n"@ == indent + "- "@ + middle
            + " likes\n"@,
        indent + (decimal(index) + "."@) + " "@ + middle + " likes"@ + (" | "@ + date) + "\n"@
            == indent + decimal(index) + ". "@ + middle + " likes | "@ + date + "\n"@,
        indent + (decimal(index) + "."@) + " "@ + middle + " likes"@ + Seq::empty() + "\n"@ == indent
            + decimal(index) + ". "@ + middle + " likes\n"@,
{
    let number = decimal(index);
    let none = Seq::<char>::empty();
    let reply = indent + "-"@ + " "@;
    assert(reply =~= indent + "- "@) by {
        reveal_strlit("-");
        reveal_strlit(" ");
        reveal_strlit("- ");
    }
    let numbered = indent + (number + "."@) + " "@;
    assert(numbered =~= indent + number + ". "@) by {
        reveal_strlit(".");
        reveal_strlit(" ");
        reveal_strlit(". ");
    }
    let (a, b) = (reply + middle, numbered + middle);
    assert(a + " likes"@ + (" | "@ + date) =~= a + " likes | "@ + date && b + " likes"@ + (" | "@
        + date) =~= b + " likes | "@ + date) by {
        reveal_strlit(" likes");
        reveal_strlit(" | ");
        reveal_strlit(" likes | ");
    }
    assert(a + " likes"@ + none + "\n"@ =~= a + " likes\n"@ && b + " likes"@ + none + "\n"@ =~= b
        + " likes\n"@) by {
        reveal_strlit(" likes");
        reveal_strlit("\n");
        reveal_strlit(" likes\n");
    }
}

/// A text of several lines is shown whole; the lines behind the first are indented.
pub proof fn further_lines_of_a_comment_are_indented(first: Seq<char>, rest: Seq<char>)
    requires
        !first.contains('\n'),
    ensures
        replaced(first + seq!['\n'] + rest, '\n', "\n  "@) == first + "\n  "@ + replaced(
            rest,
            '\n',
            "\n  "@,
        ),
{
    let with = "\n  "@;
    replacing_goes_character_by_character(first, seq!['\n'], '\n', '\n', with);
    replacing_goes_character_by_character(first + seq!['\n'], rest, '\n', '\n', with);
}

proof fn lemma_has_part(a: Seq<char>, part: Seq<char>, b: Seq<char>)
    ensures
        has_text(a + part + b, part),
{
    let all = a + part + b;
    assert(all.subrange(a.len() as int, a.len() as int + part.len()) =~= part);
    assert(occurs_at(all, part, a.len() as int));
}

proof fn lemma_has_more(a: Seq<char>, b: Seq<char>, part: Seq<char>)
    requires
        has_text(a, part),
    ensures
        has_text(a + b, part),
{
    let i = choose|i: int| occurs_at(a, part, i);
    assert((a + b).subrange(i, i + part.len()) =~= a.subrange(i, i + part.len()));
    assert(occurs_at(a + b, part, i));
}

proof fn lemma_has_within(a: Seq<char>, inner: Seq<char>, b: Seq<char>, part: Seq<char>)
    requires
        has_text(inner, part),
    ensures
        has_text(a + inner + b, part),
{
    let i = choose|i: int| occurs_at(inner, part, i);
    let all = a + inner + b;
    assert(all.subrange(a.len() + i, a.len() + i + part.len()) =~= inner.subrange(
        i,
        i + part.len(),
    ));
    assert(occurs_at(all, part, a.len() + i));
}

proof fn lemma_replies_shown(replies: Seq<CommentItem>, n: nat, j: int)
    requires
        0 <= j < n <= replies.len(),
    ensures
        has_text(replies_text(replies, n), comment_text(0, replies[j], "  "@)),
    decreases n,
{
    let before = replies_text(replies, (n - 1) as nat);
    let last = comment_text(0, replies[n - 1], "  "@);
    if j == n - 1 {
        lemma_has_part(before, last, Seq::empty());
        assert(before + last + Seq::empty() =~= before + last);
    } else {
        lemma_replies_shown(replies, (n - 1) as nat, j);
        lemma_has_more(before, last, comment_text(0, replies[j], "  "@));
    }
}

proof fn lemma_threads_grow(items: Seq<CommentThreadItem>, m: nat, n: nat, part: Seq<char>)
    requires
        m <= n <= items.len(),
        has_text(threads_text(items, m), part),
    ensures
        has_text(threads_text(items, n), part),
    decreases n,
{
    if m < n {
        let before = threads_text(items, (n - 1) as nat);
        lemma_threads_grow(items, m, (n - 1) as nat, part);
        let after = threads_text(items, n);
        if after != before {
            assert(after =~= before + after.skip(before.len() as int));
            lemma_has_more(before, after.skip(before.len() as int), part);
        }
    }
}

/// Every loaded comment and reply is in the text: the comment that begins a thread under its
/// number, and each reply to it under a dash, two spaces further in.
pub proof fn every_comment_and_reply_is_shown(
    items: Seq<CommentThreadItem>,
    i: int,
    comment: CommentItem,
    j: int,
)
    requires
        0 <= i < items.len(),
        items[i].snippet matches Some(snippet) && snippet.top_level_comment == Some(comment),
    ensures
        comment.snippet matches Some(said) ==> has_text(
            formatted_threads(items),
            comment_lines((i + 1) as nat, said, Seq::empty(), comment_date(said)),
        ),
        0 <= j < loaded_replies(items[i]).len() ==> (loaded_replies(items[i])[j].snippet matches Some(
            said,
        ) ==> has_text(
            formatted_threads(items),
            comment_lines(0, said, "  "@, comment_date(said)),
        )),
{
    let n = (i + 1) as nat;
    let before = threads_text(items, i as nat);
    let snippet = items[i].snippet.unwrap();
    let gap = if before.len() == 0 {
        Seq::<char>::empty()
    } else {
        "\n"@
    };
    let replies = loaded_replies(items[i]);
    let shown = comment_text(n, comment, Seq::empty());
    let answers = replies_text(replies, replies.len());
    let more = missing_replies_text(snippet.total_reply_count, replies.len() as u32);
    let text = threads_text(items, n);
    assert(text == before + gap + shown + answers + more);
    if comment.snippet is Some {
        lemma_has_part(before + gap, shown, answers + more);
        assert(before + gap + shown + (answers + more) =~= text);
        lemma_threads_grow(items, n, items.len(), shown);
        lemma_shown_if_any(items, shown);
    }
    if 0 <= j < replies.len() && replies[j].snippet is Some {
        let reply = comment_text(0, replies[j], "  "@);
        lemma_replies_shown(replies, replies.len(), j);
        lemma_has_within(before + gap + shown, answers, more, reply);
        lemma_threads_grow(items, n, items.len(), reply);
        lemma_shown_if_any(items, reply);
    }
}

proof fn lemma_nonempty_part(s: Seq<char>, part: Seq<char>)
    ensures
        has_text(s, part) && part.len() > 0 ==> s.len() > 0,
{
}

proof fn lemma_shown_if_any(items: Seq<CommentThreadItem>, part: Seq<char>)
    requires
        has_text(threads_text(items, items.len()), part),
        part.len() > 0 || threads_text(items, items.len()).len() > 0,
    ensures
        has_text(formatted_threads(items), part),
{
    lemma_nonempty_part(threads_text(items, items.len()), part);
}

/// Threads follow one another with an empty line between; a thread is its comment, the replies
/// to it in their order, and a line on those that were not loaded. A thread without a comment
/// is left out.
pub proof fn threads_follow_one_another(
    items: Seq<CommentThreadItem>,
    n: nat,
    replies: Seq<CommentItem>,
    k: nat,
    total: u32,
    loaded: u32,
)
    requires
        n < items.len(),
        k < replies.len(),
    ensures
        threads_text(items, 0).len() == 0,
        (match items[n as int].snippet {
            Some(snippet) => snippet.top_level_comment is None,
            None => true,
        }) ==> threads_text(items, (n + 1) as nat) == threads_text(items, n),
        items[n as int].snippet matches Some(snippet) ==> (snippet.top_level_comment matches Some(
            comment,
        ) ==> threads_text(items, (n + 1) as nat) == threads_text(items, n) + (if threads_text(
            items,
            n,
        ).len() == 0 {
            Seq::<char>::empty()
        } else {
            seq!['\n']
        }) + comment_text((n + 1) as nat, comment, Seq::empty()) + replies_text(
            loaded_replies(items[n as int]),
            loaded_replies(items[n as int]).len(),
        ) + missing_replies_text(
            snippet.total_reply_count,
            loaded_replies(items[n as int]).len() as u32,
        )),
        replies_text(replies, 0).len() == 0,
        replies_text(replies, (k + 1) as nat) == replies_text(replies, k) + comment_text(
            0,
            replies[k as int],
            seq![' ', ' '],
        ),
        missing_replies_text(None, loaded).len() == 0,
        total <= loaded ==> missing_replies_text(Some(total), loaded).len() == 0,
        total > loaded ==> missing_replies_text(Some(total), loaded) == "  ... "@ + decimal(
            (total - loaded) as nat,
        ) + " more replies not loaded by YouTube in this response\n"@,
{
    reveal_strlit("\n");
    reveal_strlit("  ");
    assert("\n"@ =~= seq!['\n']);
    assert("  "@ =~= seq![' ', ' ']);
}

/// Where no thread has a comment that says something, the text says so.
pub proof fn missing_comments_are_told(items: Seq<CommentThreadItem>)
    ensures
        formatted_threads(items).len() > 0,
        items.len() == 0 ==> formatted_threads(items)
            == "No public comments are available for this video."@,
        threads_text(items, items.len()).len() > 0 ==> formatted_threads(items) == threads_text(
            items,
            items.len(),
        ),
{
    reveal_strlit("No public comments are available for this video.");
}

/// The request for a page asks for threads with their replies as plain text, the most relevant
/// first: fifty, or as many as are left of a hundred.
pub proof fn pages_ask_for_what_is_left(
    video_id: Seq<char>,
    api_key: Seq<char>,
    loaded: nat,
    token: Seq<char>,
)
    requires
        loaded < 100,
    ensures
        ({
            let first = page_query(video_id, api_key, loaded, None);
            let next = page_query(video_id, api_key, loaded, Some(token));
            &&& first.len() == 6
            &&& first.contains(("part"@, "snippet,replies"@))
            &&& first.contains(("videoId"@, video_id))
            &&& loaded <= 50 ==> first.contains(("maxResults"@, decimal(50)))
            &&& loaded > 50 ==> first.contains(("maxResults"@, decimal((100 - loaded) as nat)))
            &&& first.contains(("order"@, "relevance"@))
            &&& first.contains(("textFormat"@, "plainText"@))
            &&& first.contains(("key"@, api_key))
            &&& next == first.push(("pageToken"@, token))
        }),
{
    let first = page_query(video_id, api_key, loaded, None);
    assert(first[0] == ("part"@, "snippet,replies"@));
    assert(first[1] == ("videoId"@, video_id));
    assert(first[2].0 == "maxResults"@ && first[2].1 == decimal(next_page_size(loaded)));
    assert(first[2] == ("maxResults"@, decimal(next_page_size(loaded))));
    assert(first[3] == ("order"@, "relevance"@));
    assert(first[4] == ("textFormat"@, "plainText"@));
    assert(first[5] == ("key"@, api_key));
}

/// A comment that tells when it was published is dated by year, month and day; any other is
/// not.
pub proof fn comments_are_dated_by_the_day(snippet: CommentSnippet)
    ensures
        match snippet.published_at {
            Some(at) => comment_date(snippet) == Some(utc_date(at.secs, "%Y-%m-%d"@)),
            None => comment_date(snippet) is None,
        },
{
}

} // verus!
