//! Chat with the running model.
//!
//! What is asked of the server, what its streamed answer means chunk by chunk,
//! and how a session gets its title. The transport itself stands outside: it
//! hands in lines and takes requests and events out.

use crate::binary64::{below, is_finite, of_whole, over, Binary64};
use crate::json::{
    as_text, at, document, field, field_of, float_of, float_view, get, item_of, items_of, json_float,
    json_text, json_whole, law_first_member_counts, law_members_add_up, lemma_array, lemma_object,
    lookup, member_views, opt_tree, parse_json, push_member, text_of, views, whole_of, whole_view,
    Json, JsonView,
};
use crate::text::{
    after_last, begins, chars_of, copied, decimal, drop_set, drop_while, ends, is_space, last_at,
    law_pieces_of_a_joined_text, law_tail_is_behind_the_last, law_text_without_a_mark_is_one_piece,
    lemma_trim, number, occurs, occurs_at, one_of, opt_view, pieces, pieces_view, same, skip_set,
    skip_while, space, spaces, split, string_of, strip_end, strip_prefix, strip_start, stripped_end,
    stripped_start, tail_of, trim, trimmed, without_prefix,
};
use vstd::prelude::*;
use vstd::slice::slice_subrange;

verus! {

/// One message of a conversation.
#[derive(Debug, Clone)]
pub struct ChatMessage {
    pub role: String,
    pub content: String,
}

/// Sampling parameters; what is absent is left to the server.
#[derive(Debug, Clone, Copy)]
pub struct ChatParams {
    pub temperature: Option<Binary64>,
    pub top_k: Option<u32>,
    pub top_p: Option<Binary64>,
    pub min_p: Option<Binary64>,
    pub max_tokens: Option<u32>,
}

impl Default for ChatParams {
    fn default() -> (p: Self)
        ensures
            p.temperature is None,
            p.top_k is None,
            p.top_p is None,
            p.min_p is None,
            p.max_tokens is None,
    {
        ChatParams { temperature: None, top_k: None, top_p: None, min_p: None, max_tokens: None }
    }
}

// ---------------------------------------------------------------------------
// Cancelling
// ---------------------------------------------------------------------------

/// The generation in flight; there is one at a time. Generations are told apart
/// by the tokens that `arm` hands out.
#[derive(Debug)]
pub struct ChatState {
    /// The token of the latest generation, 0 before the first.
    pub current: u64,
    /// The latest generation was cancelled.
    pub cancelled: bool,
}

/// The generation with this token is to stop.
pub open spec fn is_stopped(s: ChatState, token: u64) -> bool {
    token != s.current || s.cancelled
}

/// A generation was begun.
pub open spec fn begins_anew(before: ChatState, after: ChatState) -> bool {
    after.current == before.current + 1 && !after.cancelled
}

/// The generation in flight was cancelled, if there was one.
pub open spec fn cancels(before: ChatState, after: ChatState) -> bool {
    &&& after.current == before.current
    &&& after.cancelled == (before.cancelled || before.current > 0)
}

impl Default for ChatState {
    fn default() -> (s: Self)
        ensures
            s.current == 0,
            !s.cancelled,
    {
        ChatState { current: 0, cancelled: false }
    }
}

impl ChatState {
    /// Begins a generation, cancelling any previous one.
    pub fn arm(&mut self) -> (token: u64)
        requires
            old(self).current < u64::MAX,
        ensures
            begins_anew(*old(self), *final(self)),
            token == final(self).current,
            !is_stopped(*final(self), token),
            forall|t: u64| t <= old(self).current ==> #[trigger] is_stopped(*final(self), t),
    {
        self.current = self.current + 1;
        self.cancelled = false;
        self.current
    }

    /// Cancels the generation in flight, if there is one.
    pub fn cancel(&mut self)
        ensures
            cancels(*old(self), *final(self)),
    {
        if self.current > 0 {
            self.cancelled = true;
        }
    }

    /// Whether the generation with this token is to stop.
    pub fn is_cancelled(&self, token: u64) -> (r: bool)
        ensures
            r == is_stopped(*self, token),
    {
        token != self.current || self.cancelled
    }
}

/// A generation stays cancelled, whatever is armed or cancelled after it.
pub proof fn law_cancelled_stays_cancelled(before: ChatState, after: ChatState, token: u64)
    requires
        is_stopped(before, token),
        token <= before.current,
        begins_anew(before, after) || cancels(before, after),
    ensures
        is_stopped(after, token),
{
}

// ---------------------------------------------------------------------------
// Titles
// ---------------------------------------------------------------------------

/// The longest title, in characters.
pub const TITLE_LIMIT: usize = 70;

/// The last of the first `n` lines that is not blank, trimmed; empty without one.
pub open spec fn last_filled(lines: Seq<Seq<char>>, n: int) -> Seq<char>
    decreases n,
{
    if n <= 0 {
        Seq::empty()
    } else if trim(lines[n - 1]).len() > 0 {
        trim(lines[n - 1])
    } else {
        last_filled(lines, n - 1)
    }
}

/// The line of a reply to trust: the last one that is not blank, behind any
/// reasoning block.
pub open spec fn answer_line(raw: Seq<char>) -> Seq<char> {
    let lines = split(tail_of(raw, "</think>"@), seq!['\n']);
    last_filled(lines, lines.len() as int)
}

/// The characters that open and close a quotation.
pub open spec fn opening_quotes() -> Seq<char> {
    seq!['"', '\'', '“']
}

/// The characters to drop at the end of a title.
pub open spec fn closing_marks() -> Seq<char> {
    seq!['"', '\'', '”', '.']
}

/// A line without emphasis, quotation marks and a final stop.
pub open spec fn without_marks(line: Seq<char>) -> Seq<char> {
    let bare = trim(strip_end(strip_start(line, "**"@), "**"@));
    drop_while(skip_while(bare, one_of(opening_quotes())), one_of(closing_marks()))
}

/// A line without a leading `Title:`, and what it leads without its own marks.
pub open spec fn without_heading(line: Seq<char>) -> Seq<char> {
    trim(
        match without_prefix(line, "Title:"@) {
            Some(t) => without_marks(trim(t)),
            None => match without_prefix(line, "title:"@) {
                Some(t) => without_marks(trim(t)),
                None => line,
            },
        },
    )
}

/// The index of the last white space among the first `n` characters, -1 without
/// one.
pub open spec fn last_space(s: Seq<char>, n: int) -> int
    decreases n,
{
    if n <= 0 {
        -1
    } else if is_space(s[n - 1]) {
        n - 1
    } else {
        last_space(s, n - 1)
    }
}

/// A line cut to the limit: a line that reaches it loses its last word, unless it
/// is a single one.
pub open spec fn within_limit(line: Seq<char>) -> Seq<char> {
    let limit = TITLE_LIMIT as int;
    if line.len() < limit {
        line
    } else {
        let cut = line.take(limit);
        let i = last_space(cut, limit);
        if i >= 0 {
            cut.take(i)
        } else {
            cut
        }
    }
}

/// The title in a model's reply.
pub open spec fn title_in(raw: Seq<char>) -> Seq<char> {
    trim(within_limit(without_heading(without_marks(answer_line(raw)))))
}

/// `answer_line`, computed.
fn answer_line_of(raw: &[char]) -> (r: Vec<char>)
    ensures
        r@ == answer_line(raw@),
{
    let think = chars_of("</think>");
    let rest = after_last(raw, think.as_slice());
    let mut newline: Vec<char> = Vec::new();
    newline.push('\n');
    assert(newline@ =~= seq!['\n']);
    let lines = pieces(rest, newline.as_slice());
    let ghost all = pieces_view(lines@);
    let mut i: usize = lines.len();
    while i > 0
        invariant
            i <= lines@.len(),
            all == pieces_view(lines@),
            answer_line(raw@) == last_filled(all, i as int),
        decreases i,
    {
        i = i - 1;
        assert(all[i as int] == lines@[i as int]@);
        let t = trimmed(lines[i].as_slice());
        if t.len() > 0 {
            return copied(t);
        }
    }
    Vec::new()
}

/// `within_limit`, computed.
fn cut_to_limit<'a>(line: &'a [char]) -> (r: &'a [char])
    ensures
        r@ == within_limit(line@),
{
    if line.len() < TITLE_LIMIT {
        return line;
    }
    let cut = slice_subrange(line, 0, TITLE_LIMIT);
    assert(cut@ =~= line@.take(TITLE_LIMIT as int));
    let mut i: usize = TITLE_LIMIT;
    while i > 0
        invariant
            i <= TITLE_LIMIT,
            cut@.len() == TITLE_LIMIT,
            last_space(cut@, TITLE_LIMIT as int) == last_space(cut@, i as int),
            cut@ == line@.take(TITLE_LIMIT as int),
            line@.len() >= TITLE_LIMIT,
        decreases i,
    {
        i = i - 1;
        if space(cut[i]) {
            assert(cut@.take(i as int) =~= cut@.subrange(0, i as int));
            return slice_subrange(cut, 0, i);
        }
    }
    cut
}

/// `without_marks`, computed.
fn drop_marks<'a>(line: &'a [char]) -> (r: &'a [char])
    ensures
        r@ == without_marks(line@),
{
    let stars = chars_of("**");
    let bare = trimmed(stripped_end(stripped_start(line, stars.as_slice()), stars.as_slice()));
    let mut opening: Vec<char> = Vec::new();
    opening.push('"');
    opening.push('\'');
    opening.push('“');
    assert(opening@ =~= opening_quotes());
    let mut closing: Vec<char> = Vec::new();
    closing.push('"');
    closing.push('\'');
    closing.push('”');
    closing.push('.');
    assert(closing@ =~= closing_marks());
    drop_set(skip_set(bare, opening.as_slice()), closing.as_slice())
}

/// Squeezes a usable title out of a model's reply. Models pad it with quotes,
/// headings, a final stop and reasoning blocks, so the last line that is not
/// blank is the one to trust.
pub fn clean_title(raw: &str) -> (title: String)
    ensures
        title@ == title_in(raw@),
{
    let cs = chars_of(raw);
    let line = answer_line_of(cs.as_slice());
    let plain = drop_marks(line.as_slice());
    let headless = trimmed(
        match strip_prefix(plain, "Title:") {
            Some(t) => drop_marks(trimmed(t)),
            None => match strip_prefix(plain, "title:") {
                Some(t) => drop_marks(trimmed(t)),
                None => plain,
            },
        },
    );
    string_of(trimmed(cut_to_limit(headless)))
}

/// The last white space is one, and none comes behind it.
proof fn lemma_last_space(s: Seq<char>, n: int)
    requires
        0 <= n <= s.len(),
    ensures
        -1 <= last_space(s, n) < n || (n == 0 && last_space(s, n) == -1),
        last_space(s, n) >= 0 ==> is_space(s[last_space(s, n)]),
        forall|i: int| last_space(s, n) < i < n ==> !is_space(#[trigger] s[i]),
    decreases n,
{
    if n > 0 && !is_space(s[n - 1]) {
        lemma_last_space(s, n - 1);
    }
}

/// Whatever a model replies, the title keeps to the limit and has no white space
/// at its ends.
pub proof fn law_title_is_short_and_trimmed(raw: Seq<char>)
    ensures
        title_in(raw).len() <= TITLE_LIMIT,
        title_in(raw).len() > 0 ==> !is_space(title_in(raw)[0]) && !is_space(title_in(raw).last()),
{
    let line = without_heading(without_marks(answer_line(raw)));
    lemma_trim(within_limit(line));
    if line.len() >= TITLE_LIMIT {
        lemma_last_space(line.take(TITLE_LIMIT as int), TITLE_LIMIT as int);
    }
}

/// A line that is too long and has more than one word is cut between two words.
pub proof fn law_long_title_is_cut_between_words(line: Seq<char>, at: int)
    requires
        line.len() >= TITLE_LIMIT,
        0 <= at < TITLE_LIMIT,
        is_space(line[at]),
    ensures
        at <= within_limit(line).len() < TITLE_LIMIT,
        within_limit(line) == line.take(within_limit(line).len() as int),
        is_space(line[within_limit(line).len() as int]),
{
    let cut = line.take(TITLE_LIMIT as int);
    lemma_last_space(cut, TITLE_LIMIT as int);
    let i = last_space(cut, TITLE_LIMIT as int);
    assert(is_space(cut[at]));
    assert(cut.take(i) =~= line.take(i));
    assert(cut[i] == line[i]);
}

// ---------------------------------------------------------------------------
// Requests
// ---------------------------------------------------------------------------

/// A message as a document.
pub open spec fn message_view(m: ChatMessage) -> JsonView {
    JsonView::Object(
        seq![("role"@, JsonView::Text(m.role@)), ("content"@, JsonView::Text(m.content@))],
    )
}

/// A member, if its value is there.
pub open spec fn float_member(key: Seq<char>, x: Option<Binary64>) -> Seq<(Seq<char>, JsonView)> {
    match x {
        Some(v) => seq![(key, float_view(v))],
        None => seq![],
    }
}

/// A member, if its value is there.
pub open spec fn count_member(key: Seq<char>, n: Option<u32>) -> Seq<(Seq<char>, JsonView)> {
    match n {
        Some(v) => seq![(key, whole_view(v as u64))],
        None => seq![],
    }
}

/// The request for a streamed answer.
pub open spec fn chat_request_view(messages: Seq<ChatMessage>, p: ChatParams) -> JsonView {
    JsonView::Object(
        seq![
            (
                "messages"@,
                JsonView::Array(messages.map_values(|m: ChatMessage| message_view(m))),
            ),
            ("stream"@, JsonView::Bool(true)),
        ] + float_member("temperature"@, p.temperature) + count_member("top_k"@, p.top_k)
            + float_member("top_p"@, p.top_p) + float_member("min_p"@, p.min_p) + count_member(
            "max_tokens"@,
            p.max_tokens,
        ),
    )
}

/// A message as a document.
fn message_json(role: &str, content: &str) -> (j: Json)
    ensures
        j@ == JsonView::Object(
            seq![("role"@, JsonView::Text(role@)), ("content"@, JsonView::Text(content@))],
        ),
{
    let mut members: Vec<(String, Json)> = Vec::new();
    push_member(&mut members, "role", json_text(role));
    push_member(&mut members, "content", json_text(content));
    proof {
        lemma_object(members);
        assert(member_views(members@) =~= seq![
            ("role"@, JsonView::Text(role@)),
            ("content"@, JsonView::Text(content@)),
        ]);
    }
    Json::Object(members)
}

/// Adds a member, if its value is there.
fn push_float(members: &mut Vec<(String, Json)>, key: &str, x: Option<Binary64>)
    ensures
        member_views(final(members)@) == member_views(old(members)@) + float_member(key@, x),
{
    let ghost before = member_views(members@);
    if let Some(v) = x {
        push_member(members, key, json_float(v));
    }
    assert(member_views(members@) =~= before + float_member(key@, x));
}

/// Adds a member, if its value is there.
fn push_number(members: &mut Vec<(String, Json)>, key: &str, n: Option<u32>)
    ensures
        member_views(final(members)@) == member_views(old(members)@) + count_member(key@, n),
{
    let ghost before = member_views(members@);
    if let Some(v) = n {
        push_member(members, key, json_whole(v as u64));
    }
    assert(member_views(members@) =~= before + count_member(key@, n));
}

/// The request for a streamed answer.
pub fn chat_request(messages: &Vec<ChatMessage>, params: &ChatParams) -> (j: Json)
    ensures
        j@ == chat_request_view(messages@, *params),
{
    let mut list: Vec<Json> = Vec::new();
    for i in 0..messages.len()
        invariant
            views(list@) == messages@.take(i as int).map_values(|m: ChatMessage| message_view(m)),
    {
        let ghost before = list@;
        let m = message_json(messages[i].role.as_str(), messages[i].content.as_str());
        list.push(m);
        proof {
            assert(m@ == message_view(messages@[i as int]));
            assert(views(list@) =~= views(before).push(m@));
            assert(messages@.take(i + 1).map_values(|m: ChatMessage| message_view(m))
                =~= messages@.take(i as int).map_values(|m: ChatMessage| message_view(m)).push(
                message_view(messages@[i as int]),
            ));
        }
    }
    proof {
        assert(messages@.take(messages@.len() as int) =~= messages@);
        lemma_array(list);
    }
    let mut members: Vec<(String, Json)> = Vec::new();
    push_member(&mut members, "messages", Json::Array(list));
    push_member(&mut members, "stream", Json::Bool(true));
    assert(member_views(members@) =~= seq![
        (
            "messages"@,
            JsonView::Array(messages@.map_values(|m: ChatMessage| message_view(m))),
        ),
        ("stream"@, JsonView::Bool(true)),
    ]);
    push_float(&mut members, "temperature", params.temperature);
    push_number(&mut members, "top_k", params.top_k);
    push_float(&mut members, "top_p", params.top_p);
    push_float(&mut members, "min_p", params.min_p);
    push_number(&mut members, "max_tokens", params.max_tokens);
    proof {
        lemma_object(members);
    }
    Json::Object(members)
}

/// The binary64 number 0.3.
pub const TITLE_TEMPERATURE: u64 = 0x3fd3_3333_3333_3333;

/// The most tokens that naming a session may take.
pub const TITLE_TOKENS: u64 = 2000;

/// How the model is asked for a title.
pub open spec fn title_prompt(transcript: Seq<char>) -> Seq<char> {
    "Summarise this conversation as a title of at most 6 words.\nReply with the title only — no quotes, no punctuation at the end, no preamble, no explanation.\n\n"@
        + transcript
}

/// The request for a title: a single answer, without reasoning where the model's
/// template can switch that off.
pub open spec fn title_request_view(transcript: Seq<char>) -> JsonView {
    JsonView::Object(
        seq![
            (
                "messages"@,
                JsonView::Array(
                    seq![
                        JsonView::Object(
                            seq![
                                ("role"@, JsonView::Text("user"@)),
                                ("content"@, JsonView::Text(title_prompt(transcript))),
                            ],
                        ),
                    ],
                ),
            ),
            ("stream"@, JsonView::Bool(false)),
            ("temperature"@, float_view(Binary64 { bits: TITLE_TEMPERATURE })),
            (
                "chat_template_kwargs"@,
                JsonView::Object(seq![("enable_thinking"@, JsonView::Bool(false))]),
            ),
            ("max_tokens"@, whole_view(TITLE_TOKENS)),
        ],
    )
}

/// The request for a title.
pub fn title_request(transcript: &str) -> (j: Json)
    ensures
        j@ == title_request_view(transcript@),
{
    let mut prompt = String::from_str(
        "Summarise this conversation as a title of at most 6 words.\nReply with the title only — no quotes, no punctuation at the end, no preamble, no explanation.\n\n",
    );
    prompt.append(transcript);
    let mut list: Vec<Json> = Vec::new();
    let m = message_json("user", prompt.as_str());
    list.push(m);
    proof {
        lemma_array(list);
        assert(views(list@) =~= seq![m@]);
    }
    let mut kwargs: Vec<(String, Json)> = Vec::new();
    push_member(&mut kwargs, "enable_thinking", Json::Bool(false));
    proof {
        lemma_object(kwargs);
        assert(member_views(kwargs@) =~= seq![("enable_thinking"@, JsonView::Bool(false))]);
    }
    let mut members: Vec<(String, Json)> = Vec::new();
    push_member(&mut members, "messages", Json::Array(list));
    push_member(&mut members, "stream", Json::Bool(false));
    push_member(&mut members, "temperature", json_float(Binary64 { bits: TITLE_TEMPERATURE }));
    push_member(&mut members, "chat_template_kwargs", Json::Object(kwargs));
    push_member(&mut members, "max_tokens", json_whole(TITLE_TOKENS));
    proof {
        lemma_object(members);
        assert(member_views(members@) =~= title_request_view(transcript@)->Object_0);
    }
    Json::Object(members)
}

/// Where a server answers chats.
pub open spec fn chat_link(base_url: Seq<char>) -> Seq<char> {
    base_url + "/v1/chat/completions"@
}

/// Where completions are asked for.
pub fn completions_url(base_url: &str) -> (s: String)
    ensures
        s@ == chat_link(base_url@),
{
    let mut s = String::from_str(base_url);
    s.append("/v1/chat/completions");
    s
}

/// A text of a reply's message that is not blank, trimmed.
pub open spec fn reply_text(reply: JsonView, key: Seq<char>) -> Option<Seq<char>> {
    let message = field_of(item_of(field(reply, "choices"@), 0), "message"@);
    match text_of(field_of(message, key)) {
        Some(s) => if trim(s).len() > 0 {
            Some(trim(s))
        } else {
            None
        },
        None => None,
    }
}

/// The title in a reply: of its content, or else of its reasoning, which is where
/// a model that ran out of budget left everything.
pub open spec fn title_of_reply(reply: JsonView) -> Seq<char> {
    title_in(
        match reply_text(reply, "content"@) {
            Some(s) => s,
            None => match reply_text(reply, "reasoning_content"@) {
                Some(s) => s,
                None => Seq::empty(),
            },
        },
    )
}

/// `reply_text`, computed.
fn reply_text_of(reply: &Json, key: &str) -> (r: Option<String>)
    ensures
        opt_view(r) == reply_text(reply@, key@),
{
    let message = get(at(get(Some(reply), "choices"), 0), "message");
    match as_text(get(message, key)) {
        Some(s) => {
            let cs = chars_of(s.as_str());
            let t = trimmed(cs.as_slice());
            if t.len() > 0 {
                Some(string_of(t))
            } else {
                None
            }
        },
        None => None,
    }
}

/// The title in a reply that was read.
pub fn pick_title(reply: &Json) -> (r: Result<String, String>)
    ensures
        if title_of_reply(reply@).len() > 0 {
            r is Ok && r->Ok_0@ == title_of_reply(reply@)
        } else {
            r is Err && r->Err_0@ == "model returned no usable title"@
        },
{
    let title = match reply_text_of(reply, "content") {
        Some(s) => clean_title(s.as_str()),
        None => match reply_text_of(reply, "reasoning_content") {
            Some(s) => clean_title(s.as_str()),
            None => {
                proof {
                    reveal_strlit("");
                    assert(""@ =~= Seq::<char>::empty());
                }
                clean_title("")
            },
        },
    };
    let cs = chars_of(title.as_str());
    if cs.len() == 0 {
        Err(String::from_str("model returned no usable title"))
    } else {
        Ok(title)
    }
}

/// The title in the text of a reply.
pub fn title_from_reply(text: &str) -> (r: Result<String, String>)
    ensures
        match document(text@) {
            Ok(reply) => if title_of_reply(reply).len() > 0 {
                r is Ok && r->Ok_0@ == title_of_reply(reply)
            } else {
                r is Err && r->Err_0@ == "model returned no usable title"@
            },
            Err(e) => r is Err && r->Err_0@ == e,
        },
{
    match parse_json(text) {
        Ok(reply) => pick_title(&reply),
        Err(e) => Err(e),
    }
}

// ---------------------------------------------------------------------------
// Streamed answers
// ---------------------------------------------------------------------------

/// The payload of a line of an event stream: what follows `data:`, trimmed.
pub open spec fn payload(line: Seq<char>) -> Option<Seq<char>> {
    match without_prefix(line, "data:"@) {
        Some(s) => Some(trim(s)),
        None => None,
    }
}

/// The payload of a `data:` line, if this line is one.
pub fn sse_payload(line: &str) -> (r: Option<String>)
    ensures
        opt_view(r) == payload(line@),
{
    let cs = chars_of(line);
    match strip_prefix(cs.as_slice(), "data:") {
        Some(s) => Some(string_of(trimmed(s))),
        None => None,
    }
}

/// Why the answer ended, as a chunk states it.
pub open spec fn finish_in(chunk: JsonView) -> Option<Seq<char>> {
    text_of(field_of(item_of(field(chunk, "choices"@), 0), "finish_reason"@))
}

/// A text that is not empty.
pub open spec fn filled(s: Option<Seq<char>>) -> Option<Seq<char>> {
    if s is Some && s->0.len() > 0 {
        s
    } else {
        None
    }
}

/// The text that a chunk adds, and whether that is reasoning: its content, or
/// else its reasoning, where they are not empty.
pub open spec fn delta_in(chunk: JsonView) -> Option<(Seq<char>, bool)> {
    let delta = field_of(item_of(field(chunk, "choices"@), 0), "delta"@);
    match filled(text_of(field_of(delta, "content"@))) {
        Some(s) => Some((s, false)),
        None => match filled(text_of(field_of(delta, "reasoning_content"@))) {
            Some(s) => Some((s, true)),
            None => None,
        },
    }
}

/// The view of a delta.
pub open spec fn delta_view(d: Option<(String, bool)>) -> Option<(Seq<char>, bool)> {
    match d {
        Some((s, b)) => Some((s@, b)),
        None => None,
    }
}

/// Why the answer ended, as a chunk that was read states it.
pub fn chunk_finish(chunk: &Json) -> (r: Option<String>)
    ensures
        opt_view(r) == finish_in(chunk@),
{
    match as_text(get(at(get(Some(chunk), "choices"), 0), "finish_reason")) {
        Some(s) => Some(s.clone()),
        None => None,
    }
}

/// A text that is not empty.
fn filled_text(j: Option<&Json>) -> (r: Option<String>)
    ensures
        opt_view(r) == filled(text_of(opt_tree(j))),
{
    match as_text(j) {
        Some(s) => {
            let cs = chars_of(s.as_str());
            if cs.len() > 0 {
                Some(s.clone())
            } else {
                None
            }
        },
        None => None,
    }
}

/// The text that a chunk that was read adds.
pub fn chunk_delta(chunk: &Json) -> (r: Option<(String, bool)>)
    ensures
        delta_view(r) == delta_in(chunk@),
{
    let delta = get(at(get(Some(chunk), "choices"), 0), "delta");
    match filled_text(get(delta, "content")) {
        Some(s) => Some((s, false)),
        None => match filled_text(get(delta, "reasoning_content")) {
            Some(s) => Some((s, true)),
            None => None,
        },
    }
}

/// Why the answer ended, as the payload of a chunk states it. A payload that is
/// no document states nothing.
pub fn extract_finish(payload: &str) -> (r: Option<String>)
    ensures
        opt_view(r) == (match document(payload@) {
            Ok(chunk) => finish_in(chunk),
            Err(_) => None,
        }),
{
    match parse_json(payload) {
        Ok(chunk) => chunk_finish(&chunk),
        Err(_) => None,
    }
}

/// The text that the payload of a chunk adds, and whether that is reasoning.
pub fn extract_delta(payload: &str) -> (r: Option<(String, bool)>)
    ensures
        delta_view(r) == (match document(payload@) {
            Ok(chunk) => delta_in(chunk),
            Err(_) => None,
        }),
{
    match parse_json(payload) {
        Ok(chunk) => chunk_delta(&chunk),
        Err(_) => None,
    }
}

/// A piece of an answer, as it is passed on.
#[derive(Debug, Clone)]
pub struct ChatDelta {
    pub id: u64,
    pub content: String,
    /// The text is reasoning rather than the answer.
    pub reasoning: bool,
}

/// The end of an answer, as it is passed on.
#[derive(Debug, Clone)]
pub struct ChatDone {
    pub id: u64,
    pub tokens: u64,
    pub decode_tok_s: Binary64,
    /// The generation was cancelled.
    pub stopped: bool,
    /// Why the server stopped: "stop" for a complete answer, "length" for one
    /// that was cut off. Without it the stream ended before it said so.
    pub finish: Option<String>,
    pub error: Option<String>,
}

/// What to do after a line.
#[derive(Debug, Clone)]
pub enum StreamAction {
    /// Read the next line.
    Continue,
    /// Pass on a piece of the answer, then read the next line.
    Emit { content: String, reasoning: bool },
    /// Read no further.
    End,
}

/// What reading the next line of a stream gave.
#[derive(Debug, Clone)]
pub enum LineRead {
    Line(String),
    /// The read failed, with this message.
    Failed(String),
}

/// How far a stream has been read.
#[derive(Debug)]
pub struct StreamState {
    pub tokens: u64,
    pub stopped: bool,
    pub finish: Option<String>,
    pub error: Option<String>,
}

/// The state after a chunk: a reason to end is kept, a piece of text is counted.
pub open spec fn after_chunk(
    before: StreamState,
    after: StreamState,
    finish: Option<Seq<char>>,
    delta: Option<(Seq<char>, bool)>,
) -> bool {
    &&& after.stopped == before.stopped
    &&& after.error == before.error
    &&& after.tokens == before.tokens + (if delta is Some {
        1int
    } else {
        0int
    })
    &&& opt_view(after.finish) == (match finish {
        Some(s) => Some(s),
        None => opt_view(before.finish),
    })
}

/// The action that passes a piece of text on.
pub open spec fn passes_on(a: StreamAction, delta: Option<(Seq<char>, bool)>) -> bool {
    match delta {
        Some((s, b)) => a matches StreamAction::Emit { content, reasoning } && content@ == s
            && reasoning == b,
        None => a is Continue,
    }
}

/// `a` and `after` are what a line does to a stream.
pub open spec fn is_step(
    before: StreamState,
    after: StreamState,
    a: StreamAction,
    cancelled: bool,
    read: LineRead,
) -> bool {
    if cancelled {
        &&& a is End
        &&& after == (StreamState { stopped: true, ..before })
    } else {
        match read {
            LineRead::Failed(e) => {
                &&& a is End
                &&& after == (StreamState { error: after.error, ..before })
                &&& opt_view(after.error) == Some(
                    "stream interrupted after "@ + decimal(before.tokens as nat) + " tokens: "@
                        + e@,
                )
            },
            LineRead::Line(line) => match payload(line@) {
                None => a is Continue && after == before,
                Some(p) => if p == "[DONE]"@ {
                    a is End && after == before
                } else {
                    match document(p) {
                        Ok(chunk) => {
                            &&& after_chunk(before, after, finish_in(chunk), delta_in(chunk))
                            &&& passes_on(a, delta_in(chunk))
                        },
                        Err(_) => a is Continue && after == before,
                    }
                },
            },
        }
    }
}

/// `d` is the end of the answer that `s` has read.
pub open spec fn is_done(s: StreamState, d: ChatDone, id: u64, secs: Binary64) -> bool {
    &&& d.id == id
    &&& d.tokens == s.tokens
    &&& d.decode_tok_s == decode_rate(s.tokens, secs)
    &&& d.stopped == s.stopped
    &&& d.finish == s.finish
    &&& d.error == s.error
}

impl StreamState {
    /// Nothing was read yet.
    pub fn new() -> (s: StreamState)
        ensures
            s.tokens == 0,
            !s.stopped,
            s.finish is None,
            s.error is None,
    {
        StreamState { tokens: 0, stopped: false, finish: None, error: None }
    }

    /// Takes a chunk that was read.
    pub fn take_chunk(&mut self, chunk: &Json) -> (a: StreamAction)
        requires
            old(self).tokens < u64::MAX,
        ensures
            after_chunk(*old(self), *final(self), finish_in(chunk@), delta_in(chunk@)),
            passes_on(a, delta_in(chunk@)),
    {
        if let Some(reason) = chunk_finish(chunk) {
            self.finish = Some(reason);
        }
        match chunk_delta(chunk) {
            Some((content, reasoning)) => {
                self.tokens = self.tokens + 1;
                StreamAction::Emit { content, reasoning }
            },
            None => StreamAction::Continue,
        }
    }

    /// Takes the next line. A cancelled generation stops before the line is looked
    /// at, and a failed read ends the stream with an error, so that a truncated
    /// answer never looks complete.
    pub fn step(&mut self, cancelled: bool, read: &LineRead) -> (a: StreamAction)
        requires
            old(self).tokens < u64::MAX,
        ensures
            is_step(*old(self), *final(self), a, cancelled, *read),
            if cancelled {
                &&& a is End
                &&& *final(self) == (StreamState { stopped: true, ..*old(self) })
            } else {
                match *read {
                    LineRead::Failed(e) => {
                        &&& a is End
                        &&& *final(self) == (StreamState {
                            error: final(self).error,
                            ..*old(self)
                        })
                        &&& opt_view(final(self).error) == Some(
                            "stream interrupted after "@ + decimal(old(self).tokens as nat)
                                + " tokens: "@ + e@,
                        )
                    },
                    LineRead::Line(line) => match payload(line@) {
                        None => a is Continue && *final(self) == *old(self),
                        Some(p) => if p == "[DONE]"@ {
                            a is End && *final(self) == *old(self)
                        } else {
                            match document(p) {
                                Ok(chunk) => {
                                    &&& after_chunk(
                                        *old(self),
                                        *final(self),
                                        finish_in(chunk),
                                        delta_in(chunk),
                                    )
                                    &&& passes_on(a, delta_in(chunk))
                                },
                                Err(_) => a is Continue && *final(self) == *old(self),
                            }
                        },
                    },
                }
            },
    {
        if cancelled {
            self.stopped = true;
            return StreamAction::End;
        }
        match read {
            LineRead::Failed(e) => {
                let mut s = String::from_str("stream interrupted after ");
                s.append(number(self.tokens).as_str());
                s.append(" tokens: ");
                s.append(e.as_str());
                self.error = Some(s);
                StreamAction::End
            },
            LineRead::Line(line) => match sse_payload(line.as_str()) {
                None => StreamAction::Continue,
                Some(p) => {
                    if same(p.as_str(), "[DONE]") {
                        return StreamAction::End;
                    }
                    match parse_json(p.as_str()) {
                        Ok(chunk) => self.take_chunk(&chunk),
                        Err(_) => StreamAction::Continue,
                    }
                },
            },
        }
    }

    /// The end of the answer. `secs` is the time from the first piece of text to
    /// the last.
    pub fn done(self, id: u64, secs: Binary64) -> (d: ChatDone)
        ensures
            is_done(self, d, id, secs),
            d.id == id,
            d.tokens == self.tokens,
            d.decode_tok_s == decode_rate(self.tokens, secs),
            d.stopped == self.stopped,
            d.finish == self.finish,
            d.error == self.error,
    {
        ChatDone {
            id,
            tokens: self.tokens,
            decode_tok_s: rate_of(self.tokens, secs),
            stopped: self.stopped,
            finish: self.finish,
            error: self.error,
        }
    }
}

/// A reason to end that was once read is never lost: a chunk without one keeps
/// it, and a chunk with one states the latest.
pub proof fn law_finish_is_never_dropped(
    before: StreamState,
    after: StreamState,
    finish: Option<Seq<char>>,
    delta: Option<(Seq<char>, bool)>,
)
    requires
        after_chunk(before, after, finish, delta),
    ensures
        before.finish is Some || finish is Some ==> after.finish is Some,
        finish is Some ==> opt_view(after.finish) == finish,
{
}

/// Tokens per second from the first piece of text to the last; 0 where there is
/// no such span.
pub open spec fn decode_rate(tokens: u64, secs: Binary64) -> Binary64 {
    if tokens > 1 && below(Binary64 { bits: 0 }, secs) {
        over(of_whole((tokens - 1) as nat), secs)
    } else {
        Binary64 { bits: 0 }
    }
}

/// `decode_rate`, computed.
fn rate_of(tokens: u64, secs: Binary64) -> (r: Binary64)
    ensures
        r == decode_rate(tokens, secs),
{
    if tokens > 1 && Binary64::zero().below(secs) {
        Binary64::of(tokens - 1).over(secs)
    } else {
        Binary64::zero()
    }
}

/// The end of an answer whose request failed.
pub fn request_failed(id: u64, error: &str) -> (d: ChatDone)
    ensures
        d.id == id,
        d.tokens == 0,
        d.decode_tok_s == (Binary64 { bits: 0 }),
        !d.stopped,
        d.finish is None,
        opt_view(d.error) == Some("request failed: "@ + error@),
{
    let mut s = String::from_str("request failed: ");
    s.append(error);
    ChatDone {
        id,
        tokens: 0,
        decode_tok_s: Binary64::zero(),
        stopped: false,
        finish: None,
        error: Some(s),
    }
}

// ---------------------------------------------------------------------------
// Laws of requests and streams
// ---------------------------------------------------------------------------

/// The keys of a request are all different.
proof fn lemma_request_keys()
    ensures
        "messages"@ != "stream"@ && "messages"@ != "temperature"@ && "messages"@ != "top_k"@
            && "messages"@ != "top_p"@ && "messages"@ != "min_p"@ && "messages"@ != "max_tokens"@,
        "stream"@ != "temperature"@ && "stream"@ != "top_k"@ && "stream"@ != "top_p"@ && "stream"@
            != "min_p"@ && "stream"@ != "max_tokens"@,
        "temperature"@ != "top_k"@ && "temperature"@ != "top_p"@ && "temperature"@ != "min_p"@
            && "temperature"@ != "max_tokens"@,
        "top_k"@ != "top_p"@ && "top_k"@ != "min_p"@ && "top_k"@ != "max_tokens"@,
        "top_p"@ != "min_p"@ && "top_p"@ != "max_tokens"@ && "min_p"@ != "max_tokens"@,
        "role"@ != "content"@,
        "chat_template_kwargs"@ != "messages"@ && "chat_template_kwargs"@ != "stream"@
            && "chat_template_kwargs"@ != "temperature"@ && "chat_template_kwargs"@
            != "max_tokens"@,
{
    reveal_strlit("messages");
    reveal_strlit("stream");
    reveal_strlit("temperature");
    reveal_strlit("top_k");
    reveal_strlit("top_p");
    reveal_strlit("min_p");
    reveal_strlit("max_tokens");
    reveal_strlit("role");
    reveal_strlit("content");
    reveal_strlit("chat_template_kwargs");
    assert("messages"@.len() == 8 && "stream"@.len() == 6 && "temperature"@.len() == 11
        && "top_k"@.len() == 5 && "top_p"@.len() == 5 && "min_p"@.len() == 5 && "max_tokens"@.len()
        == 10 && "role"@.len() == 4 && "content"@.len() == 7 && "chat_template_kwargs"@.len() == 20);
    assert("top_k"@[4] == 'k' && "top_p"@[4] == 'p' && "top_p"@[0] == 't' && "min_p"@[0] == 'm');
}

/// The value of a key in the parts of a request.
proof fn lemma_request_lookup(messages: Seq<ChatMessage>, p: ChatParams, key: Seq<char>)
    ensures
        ({
            let head = seq![
                (
                    "messages"@,
                    JsonView::Array(messages.map_values(|m: ChatMessage| message_view(m))),
                ),
                ("stream"@, JsonView::Bool(true)),
            ];
            field(chat_request_view(messages, p), key) == (if lookup(head, key) is Some {
                lookup(head, key)
            } else if lookup(float_member("temperature"@, p.temperature), key) is Some {
                lookup(float_member("temperature"@, p.temperature), key)
            } else if lookup(count_member("top_k"@, p.top_k), key) is Some {
                lookup(count_member("top_k"@, p.top_k), key)
            } else if lookup(float_member("top_p"@, p.top_p), key) is Some {
                lookup(float_member("top_p"@, p.top_p), key)
            } else if lookup(float_member("min_p"@, p.min_p), key) is Some {
                lookup(float_member("min_p"@, p.min_p), key)
            } else {
                lookup(count_member("max_tokens"@, p.max_tokens), key)
            })
        }),
{
    let head = seq![
        ("messages"@, JsonView::Array(messages.map_values(|m: ChatMessage| message_view(m)))),
        ("stream"@, JsonView::Bool(true)),
    ];
    let a = float_member("temperature"@, p.temperature);
    let b = count_member("top_k"@, p.top_k);
    let c = float_member("top_p"@, p.top_p);
    let d = float_member("min_p"@, p.min_p);
    let e = count_member("max_tokens"@, p.max_tokens);
    law_members_add_up(head, a, key);
    law_members_add_up(head + a, b, key);
    law_members_add_up(head + a + b, c, key);
    law_members_add_up(head + a + b + c, d, key);
    law_members_add_up(head + a + b + c + d, e, key);
}

/// One member, or none.
proof fn lemma_one_member(k: Seq<char>, v: JsonView, key: Seq<char>)
    ensures
        lookup(seq![(k, v)], key) == (if k == key {
            Some(v)
        } else {
            None
        }),
        lookup(seq![], key) is None,
{
    reveal_with_fuel(lookup, 3);
    assert(seq![(k, v)].skip(1) =~= Seq::<(Seq<char>, JsonView)>::empty());
}

/// Two members.
proof fn lemma_two_members(k: Seq<char>, v: JsonView, l: Seq<char>, w: JsonView, key: Seq<char>)
    ensures
        lookup(seq![(k, v), (l, w)], key) == (if k == key {
            Some(v)
        } else if l == key {
            Some(w)
        } else {
            None
        }),
{
    lemma_one_member(k, v, key);
    lemma_one_member(l, w, key);
    law_members_add_up(seq![(k, v)], seq![(l, w)], key);
    assert(seq![(k, v)] + seq![(l, w)] =~= seq![(k, v), (l, w)]);
}

/// The conversation can be read back from a request: as many messages as there are,
/// each with its own role and content, in their order; and the answer is streamed.
pub proof fn law_conversation_is_read_back(messages: Seq<ChatMessage>, p: ChatParams, i: int)
    ensures
        ({
            let sent = items_of(field(chat_request_view(messages, p), "messages"@));
            &&& sent is Some
            &&& sent->0.len() == messages.len()
            &&& 0 <= i < messages.len() ==> {
                &&& text_of(field(sent->0[i], "role"@)) == Some(messages[i].role@)
                &&& text_of(field(sent->0[i], "content"@)) == Some(messages[i].content@)
            }
            &&& field(chat_request_view(messages, p), "stream"@) == Some(JsonView::Bool(true))
        }),
{
    lemma_request_keys();
    lemma_request_lookup(messages, p, "messages"@);
    lemma_request_lookup(messages, p, "stream"@);
    let list = JsonView::Array(messages.map_values(|m: ChatMessage| message_view(m)));
    lemma_two_members("messages"@, list, "stream"@, JsonView::Bool(true), "messages"@);
    lemma_two_members("messages"@, list, "stream"@, JsonView::Bool(true), "stream"@);
    if 0 <= i < messages.len() {
        let r = JsonView::Text(messages[i].role@);
        let c = JsonView::Text(messages[i].content@);
        lemma_two_members("role"@, r, "content"@, c, "role"@);
        lemma_two_members("role"@, r, "content"@, c, "content"@);
    }
}

/// The sampling parameters can be read back from a request: each that is given under
/// its own name, and none that is not.
pub proof fn law_parameters_are_read_back(messages: Seq<ChatMessage>, p: ChatParams)
    ensures
        ({
            let r = chat_request_view(messages, p);
            &&& p.temperature is Some && is_finite(p.temperature->0) ==> float_of(
                field(r, "temperature"@),
            ) == p.temperature
            &&& p.temperature is None ==> field(r, "temperature"@) is None
            &&& p.top_p is Some && is_finite(p.top_p->0) ==> float_of(field(r, "top_p"@))
                == p.top_p
            &&& p.top_p is None ==> field(r, "top_p"@) is None
            &&& p.min_p is Some && is_finite(p.min_p->0) ==> float_of(field(r, "min_p"@))
                == p.min_p
            &&& p.min_p is None ==> field(r, "min_p"@) is None
            &&& p.top_k is Some ==> whole_of(field(r, "top_k"@)) == Some(p.top_k->0 as u64)
            &&& p.top_k is None ==> field(r, "top_k"@) is None
            &&& p.max_tokens is Some ==> whole_of(field(r, "max_tokens"@)) == Some(
                p.max_tokens->0 as u64,
            )
            &&& p.max_tokens is None ==> field(r, "max_tokens"@) is None
        }),
{
    lemma_request_keys();
    lemma_parameter(messages, p, "temperature"@);
    lemma_parameter(messages, p, "top_p"@);
    lemma_parameter(messages, p, "min_p"@);
    lemma_parameter(messages, p, "top_k"@);
    lemma_parameter(messages, p, "max_tokens"@);
}

/// The value of a parameter's key, part by part.
proof fn lemma_parameter(messages: Seq<ChatMessage>, p: ChatParams, key: Seq<char>)
    requires
        key != "messages"@,
        key != "stream"@,
    ensures
        field(chat_request_view(messages, p), key) == (if p.temperature is Some && key
            == "temperature"@ {
            Some(float_view(p.temperature->0))
        } else if p.top_k is Some && key == "top_k"@ {
            Some(whole_view(p.top_k->0 as u64))
        } else if p.top_p is Some && key == "top_p"@ {
            Some(float_view(p.top_p->0))
        } else if p.min_p is Some && key == "min_p"@ {
            Some(float_view(p.min_p->0))
        } else if p.max_tokens is Some && key == "max_tokens"@ {
            Some(whole_view(p.max_tokens->0 as u64))
        } else {
            None
        }),
{
    lemma_request_lookup(messages, p, key);
    let list = JsonView::Array(messages.map_values(|m: ChatMessage| message_view(m)));
    lemma_two_members("messages"@, list, "stream"@, JsonView::Bool(true), key);
    if let Some(v) = p.temperature {
        lemma_one_member("temperature"@, float_view(v), key);
    }
    if let Some(v) = p.top_k {
        lemma_one_member("top_k"@, whole_view(v as u64), key);
    }
    if let Some(v) = p.top_p {
        lemma_one_member("top_p"@, float_view(v), key);
    }
    if let Some(v) = p.min_p {
        lemma_one_member("min_p"@, float_view(v), key);
    }
    if let Some(v) = p.max_tokens {
        lemma_one_member("max_tokens"@, whole_view(v as u64), key);
    }
    lemma_one_member(key, JsonView::Null, key);
}

/// A request for a title asks the user's question once, with the whole transcript at
/// its end; the answer comes at once, without reasoning, and has a budget.
pub proof fn law_title_request_holds_the_transcript(transcript: Seq<char>)
    ensures
        ({
            let r = title_request_view(transcript);
            let sent = items_of(field(r, "messages"@));
            let content = text_of(field(sent->0[0], "content"@));
            &&& sent is Some && sent->0.len() == 1
            &&& text_of(field(sent->0[0], "role"@)) == Some("user"@)
            &&& content is Some && content->0.len() > transcript.len()
            &&& content->0.skip(content->0.len() - transcript.len()) == transcript
            &&& field(r, "stream"@) == Some(JsonView::Bool(false))
            &&& field_of(field(r, "chat_template_kwargs"@), "enable_thinking"@) == Some(
                JsonView::Bool(false),
            )
            &&& whole_of(field(r, "max_tokens"@)) == Some(2000u64)
            &&& float_of(field(r, "temperature"@)) == Some(Binary64 { bits: 0x3fd3_3333_3333_3333 })
        }),
{
    lemma_request_keys();
    let r = title_request_view(transcript);
    let m = r->Object_0;
    let prompt = title_prompt(transcript);
    assert(m[0].0 == "messages"@ && m[1].0 == "stream"@ && m[2].0 == "temperature"@ && m[3].0
        == "chat_template_kwargs"@ && m[4].0 == "max_tokens"@);
    law_first_member_counts(m, "messages"@, 0);
    law_first_member_counts(m, "stream"@, 1);
    law_first_member_counts(m, "temperature"@, 2);
    law_first_member_counts(m, "chat_template_kwargs"@, 3);
    law_first_member_counts(m, "max_tokens"@, 4);
    lemma_two_members(
        "role"@,
        JsonView::Text("user"@),
        "content"@,
        JsonView::Text(prompt),
        "role"@,
    );
    lemma_two_members(
        "role"@,
        JsonView::Text("user"@),
        "content"@,
        JsonView::Text(prompt),
        "content"@,
    );
    lemma_one_member("enable_thinking"@, JsonView::Bool(false), "enable_thinking"@);
    reveal_strlit(
        "Summarise this conversation as a title of at most 6 words.\nReply with the title only — no quotes, no punctuation at the end, no preamble, no explanation.\n\n",
    );
    assert(prompt.skip(prompt.len() - transcript.len()) =~= transcript);
}

/// A reply as the server sends it: an object whose first choice is `choice`.
pub open spec fn reply_with(choice: JsonView, more: Seq<JsonView>) -> JsonView {
    JsonView::Object(seq![("choices"@, JsonView::Array(seq![choice] + more))])
}

/// The first choice of a reply.
proof fn lemma_first_choice(choice: JsonView, more: Seq<JsonView>)
    ensures
        item_of(field(reply_with(choice, more), "choices"@), 0) == Some(choice),
{
    let list = JsonView::Array(seq![choice] + more);
    lemma_one_member("choices"@, list, "choices"@);
    assert((seq![choice] + more)[0] == choice);
}

/// The keys of a chunk are all different.
proof fn lemma_chunk_keys()
    ensures
        "delta"@ != "finish_reason"@,
        "content"@ != "reasoning_content"@,
{
    reveal_strlit("delta");
    reveal_strlit("finish_reason");
    reveal_strlit("content");
    reveal_strlit("reasoning_content");
    assert("delta"@.len() == 5 && "finish_reason"@.len() == 13 && "content"@.len() == 7
        && "reasoning_content"@.len() == 17);
}

/// What a chunk adds: the content of its first choice, as the answer; where that is
/// missing, null or empty, its reasoning, as reasoning; and otherwise nothing. Other
/// choices are not looked at.
pub proof fn law_chunks_add_their_content(
    text: Seq<char>,
    thought: Seq<char>,
    finish: JsonView,
    more: Seq<JsonView>,
)
    requires
        text.len() > 0,
        thought.len() > 0,
    ensures
        ({
            let with = |delta: Seq<(Seq<char>, JsonView)>|
                reply_with(
                    JsonView::Object(
                        seq![("delta"@, JsonView::Object(delta)), ("finish_reason"@, finish)],
                    ),
                    more,
                );
            let answer = ("content"@, JsonView::Text(text));
            let reasoning = ("reasoning_content"@, JsonView::Text(thought));
            &&& delta_in(with(seq![answer])) == Some((text, false))
            &&& delta_in(with(seq![answer, reasoning])) == Some((text, false))
            &&& delta_in(with(seq![reasoning])) == Some((thought, true))
            &&& delta_in(with(seq![("content"@, JsonView::Null), reasoning])) == Some(
                (thought, true),
            )
            &&& delta_in(with(seq![("content"@, JsonView::Text(Seq::empty())), reasoning])) == Some(
                (thought, true),
            )
            &&& delta_in(with(seq![])) is None
            &&& delta_in(with(seq![("content"@, JsonView::Text(Seq::empty()))])) is None
            &&& finish_in(with(seq![answer])) == text_of(Some(finish))
            &&& finish_in(with(seq![])) == text_of(Some(finish))
        }),
{
    lemma_chunk_keys();
    let answer = ("content"@, JsonView::Text(text));
    let reasoning = ("reasoning_content"@, JsonView::Text(thought));
    lemma_chunk(seq![answer], finish, more);
    lemma_chunk(seq![answer, reasoning], finish, more);
    lemma_chunk(seq![reasoning], finish, more);
    lemma_chunk(seq![("content"@, JsonView::Null), reasoning], finish, more);
    lemma_chunk(seq![("content"@, JsonView::Text(Seq::empty())), reasoning], finish, more);
    lemma_chunk(seq![], finish, more);
    lemma_chunk(seq![("content"@, JsonView::Text(Seq::empty()))], finish, more);
    lemma_one_member(answer.0, answer.1, "content"@);
    lemma_one_member(answer.0, answer.1, "reasoning_content"@);
    lemma_one_member(reasoning.0, reasoning.1, "content"@);
    lemma_one_member(reasoning.0, reasoning.1, "reasoning_content"@);
    lemma_one_member("content"@, JsonView::Text(Seq::empty()), "content"@);
    lemma_one_member("content"@, JsonView::Text(Seq::empty()), "reasoning_content"@);
    lemma_two_members(answer.0, answer.1, reasoning.0, reasoning.1, "content"@);
    lemma_two_members("content"@, JsonView::Null, reasoning.0, reasoning.1, "content"@);
    lemma_two_members("content"@, JsonView::Null, reasoning.0, reasoning.1, "reasoning_content"@);
    lemma_two_members(
        "content"@,
        JsonView::Text(Seq::empty()),
        reasoning.0,
        reasoning.1,
        "content"@,
    );
    lemma_two_members(
        "content"@,
        JsonView::Text(Seq::empty()),
        reasoning.0,
        reasoning.1,
        "reasoning_content"@,
    );
}

/// The delta and the reason to end of a chunk.
proof fn lemma_chunk(delta: Seq<(Seq<char>, JsonView)>, finish: JsonView, more: Seq<JsonView>)
    ensures
        ({
            let chunk = reply_with(
                JsonView::Object(
                    seq![("delta"@, JsonView::Object(delta)), ("finish_reason"@, finish)],
                ),
                more,
            );
            &&& field_of(item_of(field(chunk, "choices"@), 0), "delta"@) == Some(
                JsonView::Object(delta),
            )
            &&& field_of(item_of(field(chunk, "choices"@), 0), "finish_reason"@) == Some(finish)
        }),
{
    lemma_chunk_keys();
    let choice = JsonView::Object(
        seq![("delta"@, JsonView::Object(delta)), ("finish_reason"@, finish)],
    );
    lemma_first_choice(choice, more);
    lemma_two_members("delta"@, JsonView::Object(delta), "finish_reason"@, finish, "delta"@);
    lemma_two_members(
        "delta"@,
        JsonView::Object(delta),
        "finish_reason"@,
        finish,
        "finish_reason"@,
    );
}

/// The title of a reply is that of its message's content, and only where that is
/// blank that of its reasoning.
pub proof fn law_title_is_taken_from_the_message(
    content: Seq<char>,
    thought: Seq<char>,
    more: Seq<JsonView>,
)
    ensures
        ({
            let with = |message: Seq<(Seq<char>, JsonView)>|
                reply_with(
                    JsonView::Object(seq![("message"@, JsonView::Object(message))]),
                    more,
                );
            let said = ("content"@, JsonView::Text(content));
            let reasoned = ("reasoning_content"@, JsonView::Text(thought));
            &&& trim(content).len() > 0 ==> title_of_reply(with(seq![said, reasoned])) == title_in(
                trim(content),
            )
            &&& trim(content).len() == 0 && trim(thought).len() > 0 ==> title_of_reply(
                with(seq![said, reasoned]),
            ) == title_in(trim(thought))
            &&& trim(content).len() == 0 && trim(thought).len() == 0 ==> title_of_reply(
                with(seq![said, reasoned]),
            ) == title_in(Seq::empty())
        }),
{
    lemma_chunk_keys();
    let said = ("content"@, JsonView::Text(content));
    let reasoned = ("reasoning_content"@, JsonView::Text(thought));
    let message = JsonView::Object(seq![said, reasoned]);
    let choice = JsonView::Object(seq![("message"@, message)]);
    lemma_first_choice(choice, more);
    lemma_one_member("message"@, message, "message"@);
    lemma_two_members(said.0, said.1, reasoned.0, reasoned.1, "content"@);
    lemma_two_members(said.0, said.1, reasoned.0, reasoned.1, "reasoning_content"@);
}

/// A title is at most 70 characters long; a line that is shorter stays as it is, and
/// a longer one of a single word is cut at 70.
pub proof fn law_titles_are_cut_at_seventy(raw: Seq<char>, line: Seq<char>)
    ensures
        title_in(raw).len() <= 70,
        line.len() < 70 ==> within_limit(line) == line,
        line.len() >= 70 && (forall|i: int| 0 <= i < 70 ==> !is_space(#[trigger] line[i]))
            ==> within_limit(line) == line.take(70),
{
    law_title_is_short_and_trimmed(raw);
    if line.len() >= 70 {
        let cut = line.take(70);
        lemma_last_space(cut, 70);
        let i = last_space(cut, 70);
        if i >= 0 {
            assert(cut[i] == line[i]);
        }
    }
}

/// The payload of a `data:` line is what follows, without the white space around it;
/// a line that does not begin so has none.
pub proof fn law_payload_follows_data(s: Seq<char>, line: Seq<char>)
    ensures
        payload("data:"@ + s) == Some(trim(s)),
        payload(line) is Some ==> line.len() >= 5 && line[0] == 'd' && line[1] == 'a' && line[2]
            == 't' && line[3] == 'a' && line[4] == ':',
{
    reveal_strlit("data:");
    let all = "data:"@ + s;
    assert(all.subrange(0, 5) =~= "data:"@);
    assert(all.skip(5) =~= s);
    if payload(line) is Some {
        let p = line.subrange(0, 5);
        assert(p == "data:"@);
        assert(p[0] == line[0] && p[1] == line[1] && p[2] == line[2] && p[3] == line[3] && p[4]
            == line[4]);
    }
}

/// How a stream is read on. A cancelled generation ends at once and says so, whatever
/// was read; a failed read ends it with an error that says how far it came; the
/// closing mark ends it; nothing else does. What was read before is kept, only a
/// piece of text adds to the count, and nothing but cancelling marks it as stopped.
pub proof fn law_stream_is_read_to_its_end(
    before: StreamState,
    after: StreamState,
    a: StreamAction,
    cancelled: bool,
    read: LineRead,
)
    requires
        is_step(before, after, a, cancelled, read),
    ensures
        cancelled ==> a is End && after.stopped && after.tokens == before.tokens && after.finish
            == before.finish && after.error == before.error,
        !cancelled ==> after.stopped == before.stopped,
        !cancelled && read is Failed ==> a is End && after.error is Some && after.tokens
            == before.tokens && after.finish == before.finish,
        !cancelled && read is Failed ==> after.error->0@ == "stream interrupted after "@ + decimal(
            before.tokens as nat,
        ) + " tokens: "@ + read->Failed_0@,
        !cancelled && read is Line ==> after.error == before.error,
        !cancelled && read is Line && a is End ==> payload(read->Line_0@) == Some("[DONE]"@),
        !cancelled && read is Line && payload(read->Line_0@) == Some("[DONE]"@) ==> a is End,
        a is Emit <==> after.tokens == before.tokens + 1,
        !(a is Emit) ==> after.tokens == before.tokens,
        before.finish is Some ==> after.finish is Some,
        !cancelled && read is Line && payload(read->Line_0@) is None ==> a is Continue && after
            == before,
{
}

/// What is passed on of a chunk is its text, as what it is.
pub proof fn law_chunk_is_passed_on(
    before: StreamState,
    after: StreamState,
    a: StreamAction,
    line: String,
    chunk: JsonView,
)
    requires
        is_step(before, after, a, false, LineRead::Line(line)),
        payload(line@) is Some,
        payload(line@)->0 != "[DONE]"@,
        document(payload(line@)->0) == Ok::<JsonView, Seq<char>>(chunk),
    ensures
        delta_in(chunk) is Some ==> a is Emit && a->content@ == (delta_in(chunk)->0).0
            && a->reasoning == (delta_in(chunk)->0).1,
        delta_in(chunk) is None ==> a is Continue,
        finish_in(chunk) is Some ==> after.finish is Some && after.finish->0@ == finish_in(chunk)->0,
        finish_in(chunk) is None ==> opt_view(after.finish) == opt_view(before.finish),
{
}

/// What is said at the end of an answer is what was counted and read; the speed is
/// the pieces behind the first over the time they took, and 0 without such a span.
pub proof fn law_end_says_what_was_read(s: StreamState, d: ChatDone, id: u64, secs: Binary64)
    requires
        is_done(s, d, id, secs),
    ensures
        d.id == id,
        d.tokens == s.tokens,
        d.stopped == s.stopped,
        d.finish == s.finish,
        d.error == s.error,
        s.tokens <= 1 || !below(Binary64 { bits: 0 }, secs) ==> d.decode_tok_s == (Binary64 {
            bits: 0,
        }),
        s.tokens > 1 && below(Binary64 { bits: 0 }, secs) ==> d.decode_tok_s == over(
            of_whole((s.tokens - 1) as nat),
            secs,
        ),
{
}

/// One generation runs at a time: beginning one stops all before it and runs itself,
/// and cancelling stops it.
pub proof fn law_one_generation_runs(
    before: ChatState,
    after: ChatState,
    cancelled: ChatState,
    token: u64,
)
    requires
        begins_anew(before, after),
        cancels(after, cancelled),
    ensures
        !is_stopped(after, after.current),
        token != after.current ==> is_stopped(after, token),
        is_stopped(cancelled, token),
        after.current != before.current,
{
}

/// Cancelling where nothing runs changes nothing.
pub proof fn law_cancelling_needs_a_generation(before: ChatState, after: ChatState)
    requires
        cancels(before, after),
        before.current == 0,
    ensures
        after == before,
{
}

/// What a model thought is no part of the title: only what follows the last mark that
/// ends its thinking is.
pub proof fn law_title_follows_the_thinking(raw: Seq<char>, i: int)
    requires
        last_at(raw, "</think>"@, i),
    ensures
        title_in(raw) == title_in(raw.skip(i + 8)),
{
    reveal_strlit("</think>");
    let mark = "</think>"@;
    let rest = raw.skip(i + 8);
    law_tail_is_behind_the_last(raw, mark, i);
    assert forall|j: int| !occurs_at(rest, mark, j) by {
        if occurs_at(rest, mark, j) {
            assert(rest.subrange(j, j + 8) =~= raw.subrange(i + 8 + j, i + 8 + j + 8));
            assert(occurs_at(raw, mark, i + 8 + j));
        }
    }
    assert(tail_of(rest, mark) == rest);
}

/// The title is the last line that is not blank.
pub proof fn law_title_is_the_last_line(front: Seq<char>, line: Seq<char>)
    requires
        !occurs(front, "</think>"@),
        !occurs(front.push('\n') + line, "</think>"@),
        forall|i: int| 0 <= i < line.len() ==> #[trigger] line[i] != '\n',
    ensures
        trim(line).len() > 0 ==> answer_line(front.push('\n') + line) == trim(line),
        trim(line).len() == 0 ==> answer_line(front.push('\n') + line) == answer_line(front),
{
    let set = seq!['\n'];
    assert(set[0] == '\n');
    assert(set.contains('\n'));
    assert(forall|c: char| set.contains(c) ==> c == '\n');
    law_pieces_of_a_joined_text(front, '\n', line, set);
    law_text_without_a_mark_is_one_piece(line, set);
    let before = split(front, set);
    let all = split(front.push('\n') + line, set);
    assert(all =~= before.push(line));
    lemma_filled_of_a_front(before, line, before.len() as int);
}

proof fn lemma_filled_of_a_front(lines: Seq<Seq<char>>, line: Seq<char>, n: int)
    requires
        0 <= n <= lines.len(),
    ensures
        last_filled(lines.push(line), n) == last_filled(lines, n),
    decreases n,
{
    if n > 0 {
        assert(lines.push(line)[n - 1] == lines[n - 1]);
        lemma_filled_of_a_front(lines, line, n - 1);
    }
}

/// A character that stands at neither end of a bare title.
pub open spec fn is_inner(c: char) -> bool {
    !is_space(c) && c != '*' && c != '"' && c != '\'' && c != '“' && c != '”' && c != '.'
}

/// Quotes around a title, stars that make it bold and a full stop behind it are not
/// part of it.
pub proof fn law_marks_around_a_title_go(s: Seq<char>)
    requires
        s.len() > 0,
        is_inner(s[0]),
        is_inner(s.last()),
    ensures
        without_marks(s) == s,
        without_marks(seq!['"'] + s + seq!['"']) == s,
        without_marks(seq!['\''] + s + seq!['\'']) == s,
        without_marks(seq!['“'] + s + seq!['”']) == s,
        without_marks(s + seq!['.']) == s,
        without_marks(seq!['*', '*'] + s + seq!['*', '*']) == s,
{
    let none = Seq::<char>::empty();
    assert(none + s + none =~= s);
    lemma_marks(none, s, none);
    lemma_marks(seq!['"'], s, seq!['"']);
    lemma_marks(seq!['\''], s, seq!['\'']);
    lemma_marks(seq!['“'], s, seq!['”']);
    lemma_marks(none, s, seq!['.']);
    assert(none + s + seq!['.'] =~= s + seq!['.']);
    let bold = seq!['*', '*'] + s + seq!['*', '*'];
    reveal_strlit("**");
    let stars = "**"@;
    assert(bold.subrange(0, 2) =~= stars);
    assert(begins(bold, stars));
    let tail = bold.skip(2);
    assert(tail =~= s + seq!['*', '*']);
    assert(!begins(tail, stars)) by {
        if begins(tail, stars) {
            assert(tail.subrange(0, 2)[0] == s[0]);
        }
    }
    reveal_with_fuel(strip_start, 2);
    assert(strip_start(bold, stars) == tail);
    assert(tail.subrange(tail.len() - 2, tail.len() as int) =~= stars);
    assert(ends(tail, stars));
    assert(tail.take(tail.len() - 2) =~= s);
    assert(!ends(s, stars)) by {
        if ends(s, stars) {
            assert(s.subrange(s.len() - 2, s.len() as int)[1] == s.last());
        }
    }
    reveal_with_fuel(strip_end, 2);
    assert(strip_end(tail, stars) == s);
    lemma_inner(s);
    assert(strip_start(s, stars) == s);
}

/// A bare title has no marks at its ends.
proof fn lemma_inner(s: Seq<char>)
    requires
        s.len() > 0,
        is_inner(s[0]),
        is_inner(s.last()),
    ensures
        trim(s) == s,
        skip_while(s, one_of(opening_quotes())) == s,
        drop_while(s, one_of(closing_marks())) == s,
        !begins(s, "**"@),
        !ends(s, "**"@),
{
    reveal_strlit("**");
    assert(skip_while(s, spaces()) == s);
    assert(drop_while(s, spaces()) == s);
    assert(!opening_quotes().contains(s[0]));
    assert(!closing_marks().contains(s.last()));
    if begins(s, "**"@) {
        assert(s.subrange(0, 2)[0] == s[0]);
    }
    if ends(s, "**"@) {
        assert(s.subrange(s.len() - 2, s.len() as int)[1] == s.last());
    }
}

/// At most one quote before a bare title and at most one mark behind it go.
proof fn lemma_marks(a: Seq<char>, s: Seq<char>, b: Seq<char>)
    requires
        s.len() > 0,
        is_inner(s[0]),
        is_inner(s.last()),
        a.len() <= 1,
        a.len() == 1 ==> a[0] == '"' || a[0] == '\'' || a[0] == '“',
        b.len() <= 1,
        b.len() == 1 ==> b[0] == '"' || b[0] == '\'' || b[0] == '”' || b[0] == '.',
    ensures
        without_marks(a + s + b) == s,
{
    reveal_strlit("**");
    let stars = "**"@;
    let t = a + s + b;
    lemma_inner(s);
    let o = opening_quotes();
    let c = closing_marks();
    assert(o[0] == '"' && o[1] == '\'' && o[2] == '“');
    assert(c[0] == '"' && c[1] == '\'' && c[2] == '”' && c[3] == '.');
    assert(!begins(t, stars)) by {
        if begins(t, stars) {
            assert(t.subrange(0, 2)[0] == t[0]);
        }
    }
    assert(!ends(t, stars)) by {
        if ends(t, stars) {
            assert(t.subrange(t.len() - 2, t.len() as int)[1] == t.last());
        }
    }
    assert(strip_end(strip_start(t, stars), stars) == t);
    assert(!is_space(t[0]) && !is_space(t.last()));
    assert(skip_while(t, spaces()) == t);
    assert(drop_while(t, spaces()) == t);
    assert(trim(t) == t);
    let u = s + b;
    assert(u[0] == s[0]);
    assert(skip_while(u, one_of(o)) == u);
    if a.len() == 1 {
        assert(o.contains(a[0]));
        assert(t.skip(1) =~= u);
        assert(skip_while(t, one_of(o)) == u);
    } else {
        assert(t =~= u);
    }
    if b.len() == 1 {
        assert(c.contains(b[0]));
        assert(u.last() == b[0]);
        assert(u.drop_last() =~= s);
        assert(drop_while(u, one_of(c)) == s);
    } else {
        assert(u =~= s);
    }
}

/// A heading before a title goes, and what stands around the title behind it.
pub proof fn law_heading_before_a_title_goes(s: Seq<char>)
    requires
        s.len() > 0,
        is_inner(s[0]),
        is_inner(s.last()),
    ensures
        without_heading("Title:"@ + s) == s,
        without_heading("title:"@ + s) == s,
        without_heading("Title:"@ + (seq!['"'] + s + seq!['"'])) == s,
        s[0] != 'T' && s[0] != 't' ==> without_heading(s) == s,
{
    reveal_strlit("Title:");
    reveal_strlit("title:");
    let n = "Title:"@.len() as int;
    let quoted = seq!['"'] + s + seq!['"'];
    let a = "Title:"@ + s;
    let b = "title:"@ + s;
    let c = "Title:"@ + quoted;
    assert(a.subrange(0, n) =~= "Title:"@);
    assert(b.subrange(0, n) =~= "title:"@);
    assert(c.subrange(0, n) =~= "Title:"@);
    assert(a.skip(n) =~= s);
    assert(b.skip(n) =~= s);
    assert(c.skip(n) =~= quoted);
    assert(!begins(b, "Title:"@)) by {
        if begins(b, "Title:"@) {
            assert(b.subrange(0, n)[0] == b[0]);
        }
    }
    lemma_inner(s);
    law_marks_around_a_title_go(s);
    assert(!is_space(quoted[0]) && !is_space(quoted.last()));
    assert(skip_while(quoted, spaces()) == quoted);
    assert(drop_while(quoted, spaces()) == quoted);
    assert(trim(quoted) == quoted);
    if s[0] != 'T' && s[0] != 't' {
        if begins(s, "Title:"@) {
            assert(s.subrange(0, n)[0] == s[0]);
        }
        if begins(s, "title:"@) {
            assert(s.subrange(0, n)[0] == s[0]);
        }
    }
}

/// A reply that is a bare title of fewer than seventy characters is the title, and so
/// is one in quotes.
pub proof fn law_bare_title_is_kept(s: Seq<char>)
    requires
        0 < s.len() < 70,
        is_inner(s[0]),
        is_inner(s.last()),
        s[0] != 'T' && s[0] != 't',
        forall|i: int| 0 <= i < s.len() ==> #[trigger] s[i] != '\n' && s[i] != '<',
    ensures
        title_in(s) == s,
        title_in(seq!['"'] + s + seq!['"']) == s,
{
    let quoted = seq!['"'] + s + seq!['"'];
    lemma_inner(s);
    law_marks_around_a_title_go(s);
    law_heading_before_a_title_goes(s);
    assert(!is_space(quoted[0]) && !is_space(quoted.last()));
    assert(skip_while(quoted, spaces()) == quoted);
    assert(drop_while(quoted, spaces()) == quoted);
    assert(trim(quoted) == quoted);
    assert(forall|i: int|
        0 <= i < quoted.len() ==> #[trigger] quoted[i] != '\n' && quoted[i] != '<');
    lemma_one_line(s);
    lemma_one_line(quoted);
}

/// The answer of a reply of one line.
proof fn lemma_one_line(s: Seq<char>)
    requires
        trim(s) == s,
        s.len() > 0,
        forall|i: int| 0 <= i < s.len() ==> #[trigger] s[i] != '\n' && s[i] != '<',
    ensures
        answer_line(s) == s,
{
    reveal_strlit("</think>");
    let mark = "</think>"@;
    assert forall|i: int| !occurs_at(s, mark, i) by {
        if occurs_at(s, mark, i) {
            assert(s.subrange(i, i + 8)[0] == s[i]);
        }
    }
    assert(tail_of(s, mark) == s);
    let set = seq!['\n'];
    assert(set[0] == '\n');
    assert(forall|c: char| set.contains(c) ==> c == '\n');
    law_text_without_a_mark_is_one_piece(s, set);
    assert(split(s, set)[0] == s);
}

/// Chats are sent to the server that runs: servers at different addresses are asked at
/// different ones.
pub proof fn law_chats_go_to_the_running_server(a: Seq<char>, b: Seq<char>)
    ensures
        chat_link(a) == chat_link(b) ==> a == b,
        chat_link(a) == a + "/v1/chat/completions"@,
{
    let n = "/v1/chat/completions"@.len();
    assert(chat_link(a).take(chat_link(a).len() - n) =~= a);
    assert(chat_link(b).take(chat_link(b).len() - n) =~= b);
}

} // verus!
