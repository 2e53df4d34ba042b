//! Summaries of videos: what is asked of the providers, what their answers mean, and what
//! stands in for them.

use crate::cache::transcript::{transcript_error_text, TranscriptError};
use crate::text::{blank, is_blank, opt_text, texts, trim, trimmed};
use vstd::prelude::*;

verus! {

/// How long a provider may take, in seconds.
pub const SUMMARY_REQUEST_TIMEOUT_SECS: u64 = 600;

/// The providers of summaries.
#[derive(Debug, Clone, Copy, PartialEq, Eq, Structural)]
pub enum Provider {
    Gemini,
    OpenRouter,
}

pub open spec fn provider_name(provider: Provider) -> Seq<char> {
    match provider {
        Provider::Gemini => "Gemini"@,
        Provider::OpenRouter => "OpenRouter"@,
    }
}

impl Provider {
    pub fn name(self) -> (r: &'static str)
        ensures
            r@ == provider_name(self),
    {
        match self {
            Provider::Gemini => "Gemini",
            Provider::OpenRouter => "OpenRouter",
        }
    }
}

/// What the providers are asked for.
pub open spec fn summary_prompt() -> Seq<char> {
    "Summarize this YouTube video with all the relevant information so I don't have to watch. Make sure to include the nuggets of useful knowledge/wisdom and any funny quotes."@
}

/// What the providers are asked for.
pub fn prompt() -> (r: &'static str)
    ensures
        r@ == summary_prompt(),
{
    "Summarize this YouTube video with all the relevant information so I don't have to watch. Make sure to include the nuggets of useful knowledge/wisdom and any funny quotes."
}

/// Why a provider gave no summary.
#[derive(Debug)]
pub enum ProviderCallError {
    /// An environment variable is not set.
    MissingEnvVar { variable: String },
    /// The request could not be made.
    Http(String),
    /// The answer could not be parsed.
    ParseResponse { provider: Provider, source: String },
    /// The provider reported an error.
    Api { provider: Provider, message: String },
    /// The answer holds no text.
    MissingSummary { provider: Provider },
    /// The answer's status is none of success.
    HttpStatus { status: String, message: String },
    /// No transcript could be fetched.
    Transcript(String),
    /// The transcript is blank.
    EmptyTranscript,
    /// There is no model to ask.
    NoOpenRouterModels,
}

pub open spec fn provider_error_text(error: ProviderCallError) -> Seq<char> {
    match error {
        ProviderCallError::MissingEnvVar { variable } => "missing environment variable "@
            + variable@,
        ProviderCallError::Http(cause) => "HTTP request failed: "@ + cause@,
        ProviderCallError::ParseResponse { provider, source } => "failed to parse "@
            + provider_name(provider) + " response: "@ + source@,
        ProviderCallError::Api { provider, message } => provider_name(provider) + " API error: "@
            + message@,
        ProviderCallError::MissingSummary { provider } => provider_name(provider)
            + " returned no summary text"@,
        ProviderCallError::HttpStatus { status, message } => "HTTP "@ + status@ + ": "@ + message@,
        ProviderCallError::Transcript(cause) => "failed to fetch transcript: "@ + cause@,
        ProviderCallError::EmptyTranscript => "transcript is empty"@,
        ProviderCallError::NoOpenRouterModels => "no OpenRouter models configured"@,
    }
}

impl ProviderCallError {
    pub fn message(&self) -> (r: String)
        ensures
            r@ == provider_error_text(*self),
    {
        match self {
            ProviderCallError::MissingEnvVar {
                variable,
            } => "missing environment variable ".to_owned().concat(variable.as_str()),
            ProviderCallError::Http(cause) => "HTTP request failed: ".to_owned().concat(
                cause.as_str(),
            ),
            ProviderCallError::ParseResponse { provider, source } => "failed to parse ".to_owned()
                .concat(provider.name()).concat(" response: ").concat(source.as_str()),
            ProviderCallError::Api { provider, message } => provider.name().to_owned().concat(
                " API error: ",
            ).concat(message.as_str()),
            ProviderCallError::MissingSummary { provider } => provider.name().to_owned().concat(
                " returned no summary text",
            ),
            ProviderCallError::HttpStatus { status, message } => "HTTP ".to_owned().concat(
                status.as_str(),
            ).concat(": ").concat(message.as_str()),
            ProviderCallError::Transcript(cause) => "failed to fetch transcript: ".to_owned().concat(
                cause.as_str(),
            ),
            ProviderCallError::EmptyTranscript => "transcript is empty".to_owned(),
            ProviderCallError::NoOpenRouterModels => "no OpenRouter models configured".to_owned(),
        }
    }
}

/// What came of a summarization that did not fail.
#[derive(Debug, Clone, PartialEq, Eq)]
pub enum SummaryOutcome {
    /// A summary, to be kept as the video's summary.
    Summary(String),
    /// No provider gave a summary, but there is a transcript. It is not to be kept as the
    /// video's summary.
    TranscriptOnly(String),
}

/// What a [`SummaryOutcome`] holds.
#[verifier::ext_equal]
pub enum OutcomeView {
    Summary(Seq<char>),
    TranscriptOnly(Seq<char>),
}

impl View for SummaryOutcome {
    type V = OutcomeView;

    open spec fn view(&self) -> OutcomeView {
        match *self {
            SummaryOutcome::Summary(text) => OutcomeView::Summary(text@),
            SummaryOutcome::TranscriptOnly(text) => OutcomeView::TranscriptOnly(text@),
        }
    }
}

/// Errors of summarization.
#[derive(Debug)]
pub enum SummaryError {
    /// There is neither a summary nor a transcript.
    NoSummaryOrTranscript { gemini: String, transcript: String },
}

impl SummaryError {
    pub fn message(&self) -> (r: String)
        ensures
            r@ == match *self {
                SummaryError::NoSummaryOrTranscript { gemini, transcript } => "Gemini failed: "@
                    + gemini@ + ". Transcript fallback failed: "@ + transcript@,
            },
    {
        match self {
            SummaryError::NoSummaryOrTranscript {
                gemini,
                transcript,
            } => "Gemini failed: ".to_owned().concat(gemini.as_str()).concat(
                ". Transcript fallback failed: ",
            ).concat(transcript.as_str()),
        }
    }
}

/// An answer of Gemini to choose from.
#[derive(Debug)]
pub struct Candidate {
    /// The texts of its parts, where they have one.
    pub parts: Vec<Option<String>>,
}

/// What Gemini replies.
#[derive(Debug)]
pub struct GeminiResponse {
    pub candidates: Option<Vec<Candidate>>,
    /// The message of an error.
    pub error: Option<String>,
}

/// What the content of a message of OpenRouter is.
#[derive(Debug)]
pub enum MessageContent {
    /// A text.
    Text(String),
    /// A list of parts, with the text of those that have one.
    Parts(Vec<Option<String>>),
    /// Something else.
    Other,
}

/// What OpenRouter replies.
#[derive(Debug)]
pub struct OpenRouterResponse {
    pub choices: Option<Vec<MessageContent>>,
    /// The message of an error, where the error has one.
    pub error: Option<String>,
}

/// The texts that are there, one after another.
pub open spec fn merged(parts: Seq<Option<String>>) -> Seq<char>
    decreases parts.len(),
{
    if parts.len() == 0 {
        Seq::empty()
    } else {
        merged(parts.drop_last()) + match parts.last() {
            Some(text) => text@,
            None => Seq::empty(),
        }
    }
}

/// The text of Gemini's first answer.
pub open spec fn gemini_text(response: GeminiResponse) -> Seq<char> {
    match response.candidates {
        Some(candidates) => if candidates@.len() > 0 {
            merged(candidates@[0].parts@)
        } else {
            Seq::empty()
        },
        None => Seq::empty(),
    }
}

/// The text of a message's content.
pub open spec fn content_text(content: MessageContent) -> Seq<char> {
    match content {
        MessageContent::Text(text) => text@,
        MessageContent::Parts(parts) => merged(parts@),
        MessageContent::Other => Seq::empty(),
    }
}

/// The text of OpenRouter's first answer.
pub open spec fn openrouter_text(response: OpenRouterResponse) -> Seq<char> {
    match response.choices {
        Some(choices) => if choices@.len() > 0 {
            content_text(choices@[0])
        } else {
            Seq::empty()
        },
        None => Seq::empty(),
    }
}

/// The text in a parsed answer, or why there is none: it could not be parsed, it reports an
/// error, or it is blank.
pub open spec fn answer_text(
    provider: Provider,
    parsed: Result<(Option<String>, Seq<char>), String>,
    r: Result<String, ProviderCallError>,
) -> bool {
    match parsed {
        Err(source) => r == Err::<String, ProviderCallError>(
            ProviderCallError::ParseResponse { provider, source },
        ),
        Ok((Some(message), _)) => r == Err::<String, ProviderCallError>(
            ProviderCallError::Api { provider, message },
        ),
        Ok((None, text)) => if is_blank(text) {
            r == Err::<String, ProviderCallError>(ProviderCallError::MissingSummary { provider })
        } else {
            r matches Ok(found) && found@ == text
        },
    }
}

/// What was parsed of Gemini's reply: the error it reports, and its text.
pub open spec fn gemini_parts(parsed: Result<GeminiResponse, String>) -> Result<
    (Option<String>, Seq<char>),
    String,
> {
    match parsed {
        Ok(response) => Ok((response.error, gemini_text(response))),
        Err(source) => Err(source),
    }
}

/// What was parsed of OpenRouter's reply: the error it reports, and its text.
pub open spec fn openrouter_parts(parsed: Result<OpenRouterResponse, String>) -> Result<
    (Option<String>, Seq<char>),
    String,
> {
    match parsed {
        Ok(response) => Ok((response.error, openrouter_text(response))),
        Err(source) => Err(source),
    }
}

fn merge(parts: &Vec<Option<String>>) -> (r: String)
    ensures
        r@ == merged(parts@),
{
    let mut r = String::new();
    let mut i: usize = 0;
    while i < parts.len()
        invariant
            i <= parts.len(),
            r@ == merged(parts@.take(i as int)),
        decreases parts.len() - i,
    {
        assert(parts@.take(i + 1).drop_last() =~= parts@.take(i as int));
        if let Some(text) = &parts[i] {
            r.append(text.as_str());
        }
        assert(r@ =~= merged(parts@.take(i + 1)));
        i += 1;
    }
    assert(parts@.take(parts@.len() as int) =~= parts@);
    r
}

/// The text of a message's content.
pub fn openrouter_content_text(content: &MessageContent) -> (r: String)
    ensures
        r@ == content_text(*content),
{
    match content {
        MessageContent::Text(text) => text.clone(),
        MessageContent::Parts(parts) => merge(parts),
        MessageContent::Other => String::new(),
    }
}

/// The text of Gemini's reply, or why there is none.
pub fn extract_gemini_text(parsed: Result<GeminiResponse, String>) -> (r: Result<
    String,
    ProviderCallError,
>)
    ensures
        answer_text(Provider::Gemini, gemini_parts(parsed), r),
{
    let response = match parsed {
        Ok(response) => response,
        Err(source) => {
            return Err(ProviderCallError::ParseResponse { provider: Provider::Gemini, source });
        },
    };
    let text = match &response.candidates {
        Some(candidates) => if candidates.len() > 0 {
            merge(&candidates[0].parts)
        } else {
            String::new()
        },
        None => String::new(),
    };
    if let Some(message) = response.error {
        return Err(ProviderCallError::Api { provider: Provider::Gemini, message });
    }
    if blank(text.as_str()) {
        Err(ProviderCallError::MissingSummary { provider: Provider::Gemini })
    } else {
        Ok(text)
    }
}

/// The text of OpenRouter's reply, or why there is none.
pub fn extract_openrouter_text(parsed: Result<OpenRouterResponse, String>) -> (r: Result<
    String,
    ProviderCallError,
>)
    ensures
        answer_text(Provider::OpenRouter, openrouter_parts(parsed), r),
{
    let response = match parsed {
        Ok(response) => response,
        Err(source) => {
            return Err(ProviderCallError::ParseResponse { provider: Provider::OpenRouter, source });
        },
    };
    let text = match &response.choices {
        Some(choices) => if choices.len() > 0 {
            openrouter_content_text(&choices[0])
        } else {
            String::new()
        },
        None => String::new(),
    };
    if let Some(message) = response.error {
        return Err(ProviderCallError::Api { provider: Provider::OpenRouter, message });
    }
    if blank(text.as_str()) {
        Err(ProviderCallError::MissingSummary { provider: Provider::OpenRouter })
    } else {
        Ok(text)
    }
}

/// A provider's answer: its status, its body, and what the body was parsed as.
#[derive(Debug)]
pub struct Answer<T> {
    pub success: bool,
    pub status: String,
    pub body: String,
    pub parsed: Result<T, String>,
}

/// What an answer comes to: an answer without success is an error with the message that it
/// reports, or else its body; otherwise the text is trimmed.
pub open spec fn answer_outcome(
    provider: Provider,
    success: bool,
    status: String,
    body: String,
    parsed: Result<(Option<String>, Seq<char>), String>,
    r: Result<String, ProviderCallError>,
) -> bool {
    if !success {
        r == Err::<String, ProviderCallError>(
            ProviderCallError::HttpStatus {
                status,
                message: match parsed {
                    Ok((Some(message), _)) => message,
                    _ => body,
                },
            },
        )
    } else {
        match r {
            Ok(text) => exists|whole: String|
                answer_text(provider, parsed, Ok(whole)) && text@ == #[trigger] trimmed(whole@),
            Err(error) => answer_text(provider, parsed, Err(error)),
        }
    }
}

/// What Gemini's answer comes to.
pub fn gemini_summary(answer: Answer<GeminiResponse>) -> (r: Result<String, ProviderCallError>)
    ensures
        answer_outcome(
            Provider::Gemini,
            answer.success,
            answer.status,
            answer.body,
            gemini_parts(answer.parsed),
            r,
        ),
{
    if !answer.success {
        let message = match answer.parsed {
            Ok(response) => match response.error {
                Some(message) => message,
                None => answer.body,
            },
            Err(_) => answer.body,
        };
        return Err(ProviderCallError::HttpStatus { status: answer.status, message });
    }
    match extract_gemini_text(answer.parsed) {
        Ok(text) => Ok(trim(text.as_str()).to_owned()),
        Err(error) => Err(error),
    }
}

/// What OpenRouter's answer comes to.
pub fn openrouter_summary(answer: Answer<OpenRouterResponse>) -> (r: Result<
    String,
    ProviderCallError,
>)
    ensures
        answer_outcome(
            Provider::OpenRouter,
            answer.success,
            answer.status,
            answer.body,
            openrouter_parts(answer.parsed),
            r,
        ),
{
    if !answer.success {
        let message = match answer.parsed {
            Ok(response) => match response.error {
                Some(message) => message,
                None => answer.body,
            },
            Err(_) => answer.body,
        };
        return Err(ProviderCallError::HttpStatus { status: answer.status, message });
    }
    match extract_openrouter_text(answer.parsed) {
        Ok(text) => Ok(trim(text.as_str()).to_owned()),
        Err(error) => Err(error),
    }
}

/// A request to Gemini: its address, and what its one message holds.
#[derive(Debug)]
pub struct GeminiRequest {
    pub url: String,
    pub role: String,
    pub mime_type: String,
    pub file_uri: String,
    pub text: String,
    pub thinking_level: String,
}

/// Asks Gemini about the video at `video_url`.
pub fn gemini_request(model: &str, video_url: &str, prompt: &str) -> (r: GeminiRequest)
    ensures
        r.url@ == "https://generativelanguage.googleapis.com/v1beta/models/"@ + model@
            + ":generateContent"@,
        r.role@ == "user"@,
        r.mime_type@ == "video/*"@,
        r.file_uri@ == video_url@,
        r.text@ == prompt@,
        r.thinking_level@ == "minimal"@,
{
    GeminiRequest {
        url: "https://generativelanguage.googleapis.com/v1beta/models/".to_owned().concat(
            model,
        ).concat(":generateContent"),
        role: "user".to_owned(),
        mime_type: "video/*".to_owned(),
        file_uri: video_url.to_owned(),
        text: prompt.to_owned(),
        thinking_level: "minimal".to_owned(),
    }
}

/// What is summarized, and where its transcript comes from.
#[derive(Debug, Clone)]
pub struct SummarizeRequest {
    pub video_id: String,
    pub video_url: String,
    pub video_title: String,
    pub channel_name: String,
    /// The directory for work files of transcript extraction.
    pub transcripts_work_dir: String,
    /// A subtitle file that is there already.
    pub local_subtitle_path: Option<String>,
}

/// A request to OpenRouter.
#[derive(Debug)]
pub struct OpenRouterRequest {
    pub model: String,
    /// The models to turn to where the first one fails.
    pub models: Vec<String>,
    pub reasoning_effort: String,
    pub exclude_reasoning: bool,
    pub role: String,
    pub content: String,
}

/// What OpenRouter is told: the prompt, the video and its transcript.
pub open spec fn transcript_message(
    prompt: Seq<char>,
    request: SummarizeRequest,
    transcript: Seq<char>,
) -> Seq<char> {
    prompt + "\n\nVideo title: "@ + request.video_title@ + "\nChannel: "@ + request.channel_name@
        + "\nVideo URL: "@ + request.video_url@ + "\n\nTranscript:\n"@ + transcript
}

/// Asks OpenRouter about a transcript, unless there is no key, nothing to summarize or nobody
/// to ask, in that order.
pub fn openrouter_request(
    api_key: &Option<String>,
    models: &Vec<String>,
    request: &SummarizeRequest,
    prompt: &str,
    transcript: &str,
) -> (r: Result<OpenRouterRequest, ProviderCallError>)
    ensures
        if api_key is None {
            r matches Err(ProviderCallError::MissingEnvVar { variable }) && variable@
                == "OPENROUTER_API_KEY"@
        } else if is_blank(transcript@) {
            r == Err::<OpenRouterRequest, ProviderCallError>(ProviderCallError::EmptyTranscript)
        } else if models@.len() == 0 {
            r == Err::<OpenRouterRequest, ProviderCallError>(ProviderCallError::NoOpenRouterModels)
        } else {
            r matches Ok(asked) && asked.model@ == models@[0]@ && texts(asked.models@) == texts(
                models@,
            ).skip(1) && asked.reasoning_effort@ == "none"@ && asked.exclude_reasoning
                && asked.role@ == "user"@ && asked.content@ == transcript_message(
                prompt@,
                *request,
                transcript@,
            )
        },
{
    if api_key.is_none() {
        return Err(
            ProviderCallError::MissingEnvVar { variable: "OPENROUTER_API_KEY".to_owned() },
        );
    }
    if blank(transcript) {
        return Err(ProviderCallError::EmptyTranscript);
    }
    if models.len() == 0 {
        return Err(ProviderCallError::NoOpenRouterModels);
    }
    let mut others: Vec<String> = Vec::new();
    let mut i: usize = 1;
    while i < models.len()
        invariant
            1 <= i <= models.len(),
            texts(others@) == texts(models@).subrange(1, i as int),
        decreases models.len() - i,
    {
        let ghost before = texts(others@);
        others.push(models[i].clone());
        assert(texts(others@) =~= before.push(models@[i as int]@));
        assert(texts(models@).subrange(1, i + 1) =~= before.push(models@[i as int]@));
        i += 1;
    }
    assert(texts(models@).subrange(1, models@.len() as int) =~= texts(models@).skip(1));
    let content = prompt.to_owned().concat("\n\nVideo title: ").concat(
        request.video_title.as_str(),
    ).concat("\nChannel: ").concat(request.channel_name.as_str()).concat("\nVideo URL: ").concat(
        request.video_url.as_str(),
    ).concat("\n\nTranscript:\n").concat(transcript);
    Ok(
        OpenRouterRequest {
            model: models[0].clone(),
            models: others,
            reasoning_effort: "none".to_owned(),
            exclude_reasoning: true,
            role: "user".to_owned(),
            content,
        },
    )
}

/// What a summarization does next.
#[derive(Debug)]
pub enum SummaryStep {
    /// Ask Gemini, with this key.
    AskGemini { api_key: String },
    /// Get a transcript; Gemini failed so.
    GetTranscript { gemini: String },
    /// Ask OpenRouter about a transcript.
    AskOpenRouter { transcript: String },
    /// It is done.
    Done(SummaryOutcome),
    /// It failed.
    Failed(SummaryError),
}

/// What a [`SummaryStep`] holds.
#[verifier::ext_equal]
pub enum SummaryStepView {
    AskGemini { api_key: Seq<char> },
    GetTranscript { gemini: Seq<char> },
    AskOpenRouter { transcript: Seq<char> },
    Done(OutcomeView),
    Failed { gemini: Seq<char>, transcript: Seq<char> },
}

impl View for SummaryStep {
    type V = SummaryStepView;

    open spec fn view(&self) -> SummaryStepView {
        match *self {
            SummaryStep::AskGemini { api_key } => SummaryStepView::AskGemini { api_key: api_key@ },
            SummaryStep::GetTranscript { gemini } => SummaryStepView::GetTranscript {
                gemini: gemini@,
            },
            SummaryStep::AskOpenRouter { transcript } => SummaryStepView::AskOpenRouter {
                transcript: transcript@,
            },
            SummaryStep::Done(outcome) => SummaryStepView::Done(outcome@),
            SummaryStep::Failed(
                SummaryError::NoSummaryOrTranscript { gemini, transcript },
            ) => SummaryStepView::Failed { gemini: gemini@, transcript: transcript@ },
        }
    }
}

/// The first step: Gemini, where there is a key for it.
pub open spec fn first_step(gemini_key: Option<Seq<char>>) -> SummaryStepView {
    match gemini_key {
        Some(key) => SummaryStepView::AskGemini { api_key: key },
        None => SummaryStepView::GetTranscript {
            gemini: "missing environment variable "@ + "GEMINI_API_KEY"@,
        },
    }
}

/// The step after Gemini: its summary is the outcome; without one, a transcript is needed.
pub open spec fn step_after_gemini(result: Result<String, ProviderCallError>) -> SummaryStepView {
    match result {
        Ok(summary) => SummaryStepView::Done(OutcomeView::Summary(summary@)),
        Err(error) => SummaryStepView::GetTranscript { gemini: provider_error_text(error) },
    }
}

/// The step after the transcript: OpenRouter, where there is a transcript.
pub open spec fn step_after_transcript(
    gemini: Seq<char>,
    transcript: Result<Seq<char>, Seq<char>>,
) -> SummaryStepView {
    match transcript {
        Ok(transcript) => SummaryStepView::AskOpenRouter { transcript },
        Err(cause) => SummaryStepView::Failed { gemini, transcript: cause },
    }
}

/// The step after OpenRouter: its summary is the outcome, or else the transcript alone.
pub open spec fn step_after_openrouter(
    transcript: Seq<char>,
    result: Result<String, ProviderCallError>,
) -> SummaryStepView {
    match result {
        Ok(summary) => SummaryStepView::Done(OutcomeView::Summary(summary@)),
        Err(_) => SummaryStepView::Done(OutcomeView::TranscriptOnly(trimmed(transcript))),
    }
}

/// What a fetch gives of a transcript: the transcript, unless it is blank or could not be
/// fetched.
pub open spec fn resolved_transcript(fetched: Result<String, TranscriptError>) -> Result<
    Seq<char>,
    Seq<char>,
> {
    match fetched {
        Ok(transcript) => if is_blank(transcript@) {
            Err("transcript is empty"@)
        } else {
            Ok(transcript@)
        },
        Err(error) => Err(transcript_error_text(error)),
    }
}

pub open spec fn result_texts(result: Result<String, String>) -> Result<Seq<char>, Seq<char>> {
    match result {
        Ok(text) => Ok(text@),
        Err(text) => Err(text@),
    }
}

/// Begins a summarization.
pub fn start_summary(gemini_key: Option<String>) -> (step: SummaryStep)
    ensures
        step@ == first_step(opt_text(gemini_key)),
{
    match gemini_key {
        Some(api_key) => SummaryStep::AskGemini { api_key },
        None => SummaryStep::GetTranscript {
            gemini: (ProviderCallError::MissingEnvVar {
                variable: "GEMINI_API_KEY".to_owned(),
            }).message(),
        },
    }
}

/// What follows Gemini's answer.
pub fn after_gemini(result: Result<String, ProviderCallError>) -> (step: SummaryStep)
    ensures
        step@ == step_after_gemini(result),
{
    match result {
        Ok(summary) => SummaryStep::Done(SummaryOutcome::Summary(summary)),
        Err(error) => SummaryStep::GetTranscript { gemini: error.message() },
    }
}

/// The transcript of a fetch, unless it is blank.
fn fetched_transcript(fetched: Result<String, TranscriptError>) -> (r: Result<String, String>)
    ensures
        result_texts(r) == resolved_transcript(fetched),
{
    match fetched {
        Ok(transcript) => if blank(transcript.as_str()) {
            Err(ProviderCallError::EmptyTranscript.message())
        } else {
            Ok(transcript)
        },
        Err(error) => Err(error.message()),
    }
}

/// The transcript to summarize: the local one where there is one, else what was fetched;
/// nothing where it has to be fetched first.
pub fn resolve_transcript(
    local: Option<String>,
    fetched: Option<Result<String, TranscriptError>>,
) -> (r: Option<Result<String, String>>)
    ensures
        match r {
            Some(transcript) => match (local, fetched) {
                (Some(text), _) => transcript matches Ok(found) && found@ == text@,
                (None, Some(fetched)) => result_texts(transcript) == resolved_transcript(fetched),
                (None, None) => false,
            },
            None => local is None && fetched is None,
        },
{
    match (local, fetched) {
        (Some(transcript), _) => Some(Ok(transcript)),
        (None, Some(fetched)) => Some(fetched_transcript(fetched)),
        (None, None) => None,
    }
}

/// What follows the search for a transcript.
pub fn after_transcript(gemini: String, transcript: Result<String, String>) -> (step: SummaryStep)
    ensures
        step@ == step_after_transcript(gemini@, result_texts(transcript)),
{
    match transcript {
        Ok(transcript) => SummaryStep::AskOpenRouter { transcript },
        Err(cause) => SummaryStep::Failed(
            SummaryError::NoSummaryOrTranscript { gemini, transcript: cause },
        ),
    }
}

/// What follows OpenRouter's answer.
pub fn after_openrouter(transcript: &str, result: Result<String, ProviderCallError>) -> (step:
    SummaryStep)
    ensures
        step@ == step_after_openrouter(transcript@, result),
{
    match result {
        Ok(summary) => SummaryStep::Done(SummaryOutcome::Summary(summary)),
        Err(_) => SummaryStep::Done(
            SummaryOutcome::TranscriptOnly(trim(transcript).to_owned()),
        ),
    }
}

/// A summary is always a provider's own text: without an answer of a provider the outcome is
/// no summary, and with a transcript there is always an outcome.
pub proof fn only_providers_give_summaries(
    gemini: Result<String, ProviderCallError>,
    transcript: Seq<char>,
    openrouter: Result<String, ProviderCallError>,
)
    ensures
        step_after_gemini(gemini) matches SummaryStepView::Done(OutcomeView::Summary(text))
            ==> (gemini matches Ok(summary) && text == summary@),
        step_after_openrouter(transcript, openrouter) matches SummaryStepView::Done(
            OutcomeView::Summary(text),
        ) ==> (openrouter matches Ok(summary) && text == summary@),
        step_after_openrouter(transcript, openrouter) is Done,
        gemini is Err && openrouter is Err ==> step_after_openrouter(transcript, openrouter)
            == SummaryStepView::Done(OutcomeView::TranscriptOnly(trimmed(transcript))),
{
}

/// A provider's text is all of its parts one after another, those without a text aside.
pub proof fn parts_are_merged_in_order(
    a: Seq<Option<String>>,
    b: Seq<Option<String>>,
    text: String,
)
    ensures
        merged(a + b) == merged(a) + merged(b),
        merged(seq![Some(text)]) == text@,
        merged(seq![None::<String>]).len() == 0,
        merged(Seq::empty()).len() == 0,
    decreases b.len(),
{
    let none = Seq::<Option<String>>::empty();
    assert(seq![Some(text)].drop_last() =~= none);
    assert(seq![None::<String>].drop_last() =~= none);
    assert(merged(none) =~= Seq::<char>::empty());
    assert(merged(seq![Some(text)]) =~= text@);
    if b.len() == 0 {
        assert(a + b =~= a);
        assert(merged(a) + merged(b) =~= merged(a));
    } else {
        parts_are_merged_in_order(a, b.drop_last(), text);
        assert((a + b).drop_last() =~= a + b.drop_last());
        assert((a + b).last() == b.last());
        assert(merged(a + b) =~= merged(a) + merged(b));
    }
}

/// The first answer of a provider is the one that counts.
pub proof fn the_first_answer_counts(gemini: GeminiResponse, openrouter: OpenRouterResponse)
    ensures
        match gemini.candidates {
            Some(candidates) => candidates@.len() > 0 ==> gemini_text(gemini) == merged(
                candidates@[0].parts@,
            ),
            None => gemini_text(gemini).len() == 0,
        },
        match openrouter.choices {
            Some(choices) => choices@.len() > 0 ==> match choices@[0] {
                MessageContent::Text(text) => openrouter_text(openrouter) == text@,
                MessageContent::Parts(parts) => openrouter_text(openrouter) == merged(parts@),
                MessageContent::Other => openrouter_text(openrouter).len() == 0,
            },
            None => openrouter_text(openrouter).len() == 0,
        },
        gemini_parts(Ok(gemini)) == Ok::<(Option<String>, Seq<char>), String>(
            (gemini.error, gemini_text(gemini)),
        ),
        openrouter_parts(Ok(openrouter)) == Ok::<(Option<String>, Seq<char>), String>(
            (openrouter.error, openrouter_text(openrouter)),
        ),
{
}

/// What a provider's answer comes to: its own text, trimmed, where it succeeded, reports no
/// error and is not blank; in every other case an error of that provider.
pub proof fn answers_come_to_their_text(
    provider: Provider,
    success: bool,
    status: String,
    body: String,
    parsed: Result<(Option<String>, Seq<char>), String>,
    r: Result<String, ProviderCallError>,
)
    requires
        answer_outcome(provider, success, status, body, parsed, r),
    ensures
        match r {
            Ok(summary) => {
                &&& success
                &&& parsed matches Ok((error, text)) && error is None && summary@ == trimmed(text)
                    && summary@.len() > 0
            },
            Err(error) => {
                &&& !success ==> (error matches ProviderCallError::HttpStatus {
                    status: code,
                    message,
                } && code@ == status@ && message@ == (match parsed {
                    Ok((Some(reported), _)) => reported@,
                    _ => body@,
                }))
                &&& success ==> match parsed {
                    Ok((Some(reported), _)) => error == (ProviderCallError::Api {
                        provider,
                        message: reported,
                    }),
                    Ok((None, text)) => trimmed(text).len() == 0 && error == (
                    ProviderCallError::MissingSummary { provider }),
                    Err(source) => error == (ProviderCallError::ParseResponse { provider, source }),
                }
            },
        },
{
    if success && r is Ok {
        let text = r.unwrap();
        let whole = choose|whole: String|
            answer_text(provider, parsed, Ok(whole)) && text@ == #[trigger] trimmed(whole@);
        assert(answer_text(provider, parsed, Ok(whole)));
    }
}

/// A transcript is handed on as it was found, and a failure with its cause; a fetched
/// transcript counts where it is not blank.
pub proof fn summaries_go_step_by_step(
    key: Seq<char>,
    gemini: Seq<char>,
    error: ProviderCallError,
    transcript: Seq<char>,
    cause: Seq<char>,
    fetched: String,
    failure: TranscriptError,
)
    ensures
        first_step(Some(key)) == (SummaryStepView::AskGemini { api_key: key }),
        first_step(None) == (SummaryStepView::GetTranscript {
            gemini: "missing environment variable GEMINI_API_KEY"@,
        }),
        step_after_gemini(Err(error)) == (SummaryStepView::GetTranscript {
            gemini: provider_error_text(error),
        }),
        step_after_transcript(gemini, Ok(transcript)) == (SummaryStepView::AskOpenRouter {
            transcript,
        }),
        step_after_transcript(gemini, Err(cause)) == (SummaryStepView::Failed {
            gemini,
            transcript: cause,
        }),
        trimmed(fetched@).len() > 0 ==> resolved_transcript(Ok(fetched)) == Ok::<
            Seq<char>,
            Seq<char>,
        >(fetched@),
        trimmed(fetched@).len() == 0 ==> resolved_transcript(Ok(fetched)) == Err::<
            Seq<char>,
            Seq<char>,
        >("transcript is empty"@),
        resolved_transcript(Err(failure)) == Err::<Seq<char>, Seq<char>>(
            transcript_error_text(failure),
        ),
{
    reveal_strlit("missing environment variable ");
    reveal_strlit("GEMINI_API_KEY");
    reveal_strlit("missing environment variable GEMINI_API_KEY");
    assert("missing environment variable "@ + "GEMINI_API_KEY"@
        =~= "missing environment variable GEMINI_API_KEY"@);
}

/// The message to OpenRouter begins with the prompt, names the video and ends with the whole
/// transcript.
pub proof fn messages_hold_the_whole_transcript(
    prompt: Seq<char>,
    request: SummarizeRequest,
    transcript: Seq<char>,
)
    ensures
        ({
            let message = transcript_message(prompt, request, transcript);
            let heading = "\n\nVideo title: "@ + request.video_title@ + "\nChannel: "@
                + request.channel_name@ + "\nVideo URL: "@ + request.video_url@
                + "\n\nTranscript:\n"@;
            &&& message.take(prompt.len() as int) == prompt
            &&& message.skip(message.len() - transcript.len()) == transcript
            &&& message.subrange(prompt.len() as int, message.len() - transcript.len()) == heading
        }),
{
    let message = transcript_message(prompt, request, transcript);
    let heading = "\n\nVideo title: "@ + request.video_title@ + "\nChannel: "@
        + request.channel_name@ + "\nVideo URL: "@ + request.video_url@ + "\n\nTranscript:\n"@;
    assert(message =~= prompt + heading + transcript);
    assert(message.take(prompt.len() as int) =~= prompt);
    assert(message.skip(message.len() - transcript.len()) =~= transcript);
    assert(message.subrange(prompt.len() as int, message.len() - transcript.len()) =~= heading);
}

/// What a provider did wrong is told with its name, and all else with what went wrong.
pub proof fn failures_of_providers_are_told(text: String, other: String)
    ensures
        provider_error_text(
            ProviderCallError::ParseResponse { provider: Provider::Gemini, source: text },
        ) == "failed to parse "@ + "Gemini"@ + " response: "@ + text@,
        provider_error_text(
            ProviderCallError::ParseResponse { provider: Provider::OpenRouter, source: text },
        ) == "failed to parse "@ + "OpenRouter"@ + " response: "@ + text@,
        provider_error_text(ProviderCallError::Api { provider: Provider::Gemini, message: text })
            == "Gemini"@ + " API error: "@ + text@,
        provider_error_text(
            ProviderCallError::Api { provider: Provider::OpenRouter, message: text },
        ) == "OpenRouter"@ + " API error: "@ + text@,
        provider_error_text(ProviderCallError::MissingSummary { provider: Provider::Gemini })
            == "Gemini"@ + " returned no summary text"@,
        provider_error_text(ProviderCallError::MissingSummary { provider: Provider::OpenRouter })
            == "OpenRouter"@ + " returned no summary text"@,
        provider_error_text(ProviderCallError::HttpStatus { status: text, message: other })
            == "HTTP "@ + text@ + ": "@ + other@,
        provider_error_text(ProviderCallError::Http(text)) == "HTTP request failed: "@ + text@,
        provider_error_text(ProviderCallError::MissingEnvVar { variable: text })
            == "missing environment variable "@ + text@,
        provider_error_text(ProviderCallError::Transcript(text)) == "failed to fetch transcript: "@
            + text@,
        provider_error_text(ProviderCallError::EmptyTranscript) == "transcript is empty"@,
        provider_error_text(ProviderCallError::NoOpenRouterModels)
            == "no OpenRouter models configured"@,
{
}

} // verus!
