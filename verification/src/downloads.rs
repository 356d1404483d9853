//! Model downloads.
//!
//! Models come from the Hugging Face hub, from a direct link or through Ollama.
//! A download goes to a partial file and is resumed with a range request, so a
//! connection that drops costs nothing that has arrived.

use crate::binary64::{at_most, magnitude, of_whole, over, Binary64, SIGN};
use crate::json::{
    as_items, as_text, as_whole, document, document_list, field, get, items_of, opt_tree,
    parse_json, parse_json_list, text_of, views, whole_of, Json, JsonView,
};
use crate::order::{is_order, is_sorted_pick, lemma_insert, lemma_skip, placed};
use crate::scanner::{find_file, first_file, Place};
use crate::text::{
    before, begins, chars_of, control, decimal, digit, drop_set, drop_while, ends, ends_with,
    first_at, head_of, holds, is_alnum, is_control, is_digit, is_space, law_pieces_of_a_joined_text,
    law_text_is_cut_at_the_first, law_text_without_a_mark_is_one_piece,
    law_trimming_takes_white_space, lemma_decimal_value, lemma_drop_while, lemma_skip_while, lower,
    number, occurs, occurs_at, one_of, opt_str_view, opt_view, parse_unsigned, pieces, pieces_view,
    push_text, same, same_chars, skip_set, skip_while, spaces, split, starts_with, str_contains,
    str_starts_with, string_of, texts, to_lower, to_upper, trim, trimmed, unsigned, upper,
};
use vstd::prelude::*;
use vstd::slice::slice_subrange;
use vstd::utf8::encode_utf8;

verus! {

/// A repository on the hub.
#[derive(Debug, Clone)]
pub struct HfModel {
    pub id: String,
    pub downloads: u64,
    pub likes: u64,
    /// A token is needed to read it.
    pub gated: bool,
}

/// A GGUF file of a repository.
#[derive(Debug, Clone)]
pub struct HfFile {
    pub name: String,
    pub size_bytes: u64,
    /// Quant label in the file name.
    pub quant: Option<String>,
}

/// What a request to start or stop a download names.
#[derive(Debug, Clone, Copy)]
pub struct DownloadRequest {
    pub id: u64,
}

/// How a download stands, as it is passed on.
#[derive(Debug, Clone)]
pub struct Progress {
    pub id: u64,
    pub received: u64,
    pub total: u64,
    pub bytes_per_sec: Binary64,
    pub done: bool,
    pub cancelled: bool,
    pub path: Option<String>,
    pub error: Option<String>,
}

// ---------------------------------------------------------------------------
// Downloads in flight
// ---------------------------------------------------------------------------

/// A download that was started.
#[derive(Debug, Clone, Copy, PartialEq, Eq, Structural)]
pub struct DownloadEntry {
    pub id: u64,
    /// Tells downloads with the same id apart.
    pub token: u64,
    pub cancelled: bool,
}

/// The downloads in flight, each with its own flag, so that several can run and be
/// cancelled independently.
#[derive(Debug)]
pub struct DownloadState {
    pub entries: Vec<DownloadEntry>,
    /// The token of the next download.
    pub next: u64,
}

/// The entries that were not cancelled.
pub open spec fn live(entries: Seq<DownloadEntry>) -> Seq<DownloadEntry>
    decreases entries.len(),
{
    if entries.len() == 0 {
        entries
    } else if entries.last().cancelled {
        live(entries.drop_last())
    } else {
        live(entries.drop_last()).push(entries.last())
    }
}

/// `i` is the first entry with this id.
pub open spec fn is_first_with(entries: Seq<DownloadEntry>, id: u64, i: int) -> bool {
    &&& 0 <= i < entries.len()
    &&& entries[i].id == id
    &&& forall|j: int| 0 <= j < i ==> (#[trigger] entries[j]).id != id
}

/// The download with this token is to stop: it was cancelled, or it was and has
/// been forgotten since.
pub open spec fn is_stopped(s: DownloadState, token: u64) -> bool {
    forall|i: int|
        0 <= i < s.entries@.len() && (#[trigger] s.entries@[i]).token == token
            ==> s.entries@[i].cancelled
}

/// Tokens were handed out in order, each once.
pub open spec fn tokens_in_order(s: DownloadState) -> bool {
    &&& forall|i: int| 0 <= i < s.entries@.len() ==> (#[trigger] s.entries@[i]).token < s.next
    &&& forall|i: int, j: int|
        0 <= i < j < s.entries@.len() ==> (#[trigger] s.entries@[i]).token < (
        #[trigger] s.entries@[j]).token
}

/// `after` is `before` with a download started.
pub open spec fn is_armed(before: DownloadState, after: DownloadState, id: u64) -> bool {
    &&& after.entries@ == live(before.entries@).push(
        DownloadEntry { id, token: before.next, cancelled: false },
    )
    &&& after.next == before.next + 1
}

/// `after` is `before` with the first download of this id cancelled, if there is
/// one.
pub open spec fn is_cancelled_by(before: DownloadState, after: DownloadState, id: u64) -> bool {
    &&& after.next == before.next
    &&& if exists|i: int| is_first_with(before.entries@, id, i) {
        exists|i: int|
            is_first_with(before.entries@, id, i) && after.entries@ == before.entries@.update(
                i,
                DownloadEntry { cancelled: true, ..before.entries@[i] },
            )
    } else {
        after.entries@ == before.entries@
    }
}

impl Default for DownloadState {
    fn default() -> (s: Self)
        ensures
            s.entries@.len() == 0,
            s.next == 0,
            tokens_in_order(s),
    {
        DownloadState { entries: Vec::new(), next: 0 }
    }
}

proof fn lemma_live_from(entries: Seq<DownloadEntry>, k: int) -> (i: int)
    requires
        0 <= k < live(entries).len(),
    ensures
        0 <= i < entries.len(),
        live(entries)[k] == entries[i],
        !entries[i].cancelled,
        k <= i,
    decreases entries.len(),
{
    if entries.last().cancelled {
        lemma_live_from(entries.drop_last(), k)
    } else if k == live(entries).len() - 1 {
        lemma_live_short(entries);
        entries.len() - 1
    } else {
        lemma_live_from(entries.drop_last(), k)
    }
}

proof fn lemma_live_short(entries: Seq<DownloadEntry>)
    ensures
        live(entries).len() <= entries.len(),
    decreases entries.len(),
{
    if entries.len() > 0 {
        lemma_live_short(entries.drop_last());
    }
}

proof fn lemma_live_holds(entries: Seq<DownloadEntry>, i: int) -> (k: int)
    requires
        0 <= i < entries.len(),
        !entries[i].cancelled,
    ensures
        0 <= k < live(entries).len(),
        live(entries)[k] == entries[i],
    decreases entries.len(),
{
    if i == entries.len() - 1 {
        live(entries).len() - 1
    } else {
        lemma_live_holds(entries.drop_last(), i)
    }
}

proof fn lemma_live_ordered(entries: Seq<DownloadEntry>)
    requires
        forall|i: int, j: int|
            0 <= i < j < entries.len() ==> (#[trigger] entries[i]).token < (
            #[trigger] entries[j]).token,
    ensures
        forall|i: int, j: int|
            0 <= i < j < live(entries).len() ==> (#[trigger] live(entries)[i]).token < (
            #[trigger] live(entries)[j]).token,
    decreases entries.len(),
{
    if entries.len() > 0 {
        let front = entries.drop_last();
        assert forall|i: int, j: int| 0 <= i < j < front.len() implies (#[trigger] front[i]).token
            < (#[trigger] front[j]).token by {
            assert(entries[i].token < entries[j].token);
        }
        lemma_live_ordered(front);
        if !entries.last().cancelled {
            assert forall|i: int, j: int| 0 <= i < j < live(entries).len() implies (
            #[trigger] live(entries)[i]).token < (#[trigger] live(entries)[j]).token by {
                if j == live(entries).len() - 1 {
                    let k = lemma_live_from(front, i);
                    assert(entries[k].token < entries[entries.len() - 1].token);
                } else {
                    assert(live(front)[i].token < live(front)[j].token);
                }
            }
        }
    }
}

impl DownloadState {
    /// Starts a download. Entries that were cancelled are forgotten.
    pub fn arm(&mut self, id: u64) -> (token: u64)
        requires
            old(self).next < u64::MAX,
            tokens_in_order(*old(self)),
        ensures
            token == old(self).next,
            is_armed(*old(self), *final(self), id),
            tokens_in_order(*final(self)),
            !is_stopped(*final(self), token),
    {
        let mut kept: Vec<DownloadEntry> = Vec::new();
        for i in 0..self.entries.len()
            invariant
                kept@ == live(self.entries@.take(i as int)),
        {
            let e = self.entries[i];
            assert(self.entries@.take(i + 1).drop_last() =~= self.entries@.take(i as int));
            if !e.cancelled {
                kept.push(e);
            }
        }
        assert(self.entries@.take(self.entries@.len() as int) =~= self.entries@);
        let token = self.next;
        let ghost before = self.entries@;
        proof {
            lemma_live_ordered(before);
            assert forall|k: int| 0 <= k < live(before).len() implies (#[trigger] live(
                before,
            )[k]).token < token by {
                let i = lemma_live_from(before, k);
                assert(before[i].token < token);
            }
        }
        kept.push(DownloadEntry { id, token, cancelled: false });
        proof {
            assert(kept@[kept@.len() - 1].token == token);
            assert forall|i: int, j: int| 0 <= i < j < kept@.len() implies (
            #[trigger] kept@[i]).token < (#[trigger] kept@[j]).token by {
                assert(kept@[i] == live(before)[i]);
                if j < kept@.len() - 1 {
                    assert(kept@[j] == live(before)[j]);
                }
            }
            assert forall|i: int| 0 <= i < kept@.len() implies (#[trigger] kept@[i]).token < token
                + 1 by {
                if i < kept@.len() - 1 {
                    assert(kept@[i] == live(before)[i]);
                }
            }
        }
        self.entries = kept;
        self.next = token + 1;
        token
    }

    /// Cancels the download with this id, if there is one. What has arrived is
    /// kept, so that it can be resumed.
    pub fn cancel(&mut self, id: u64)
        ensures
            is_cancelled_by(*old(self), *final(self), id),
            tokens_in_order(*old(self)) ==> tokens_in_order(*final(self)),
    {
        let ghost before = self.entries@;
        let n = self.entries.len();
        for i in 0..n
            invariant
                n == before.len(),
                self.entries@ == before,
                *self == *old(self),
                before == old(self).entries@,
                forall|j: int| 0 <= j < i ==> (#[trigger] before[j]).id != id,
        {
            let e = self.entries[i];
            if e.id == id {
                assert(is_first_with(before, id, i as int));
                self.entries.set(i, DownloadEntry { id: e.id, token: e.token, cancelled: true });
                proof {
                    let after = self.entries@;
                    assert(after == before.update(
                        i as int,
                        DownloadEntry { cancelled: true, ..before[i as int] },
                    ));
                    assert forall|k: int| 0 <= k < after.len() implies (#[trigger] after[k]).token
                        == before[k].token by {}
                }
                return;
            }
        }
    }

    /// Whether the download with this token is to stop.
    pub fn is_cancelled(&self, token: u64) -> (r: bool)
        ensures
            r == is_stopped(*self, token),
    {
        for i in 0..self.entries.len()
            invariant
                forall|k: int|
                    0 <= k < i && (#[trigger] self.entries@[k]).token == token
                        ==> self.entries@[k].cancelled,
        {
            if self.entries[i].token == token && !self.entries[i].cancelled {
                assert(!self.entries@[i as int].cancelled);
                return false;
            }
        }
        true
    }
}

/// Starting a download leaves every other one as it was: what runs goes on, what
/// was cancelled stays so.
pub proof fn law_starting_leaves_others_alone(
    before: DownloadState,
    after: DownloadState,
    id: u64,
    token: u64,
)
    requires
        is_armed(before, after, id),
        token < before.next,
    ensures
        is_stopped(after, token) == is_stopped(before, token),
{
    let b = before.entries@;
    let a = after.entries@;
    if is_stopped(before, token) {
        assert forall|k: int| 0 <= k < a.len() && (#[trigger] a[k]).token == token implies a[k].cancelled by {
            if k < a.len() - 1 {
                assert(a[k] == live(b)[k]);
                let i = lemma_live_from(b, k);
                assert(b[i].cancelled);
            }
        }
    } else {
        let i = choose|i: int|
            0 <= i < b.len() && (#[trigger] b[i]).token == token && !b[i].cancelled;
        let k = lemma_live_holds(b, i);
        assert(a[k] == live(b)[k]);
    }
}

/// Cancelling one download leaves those with other ids as they were, and stops the
/// first one with that id.
pub proof fn law_downloads_are_cancelled_independently(
    before: DownloadState,
    after: DownloadState,
    id: u64,
    i: int,
)
    requires
        tokens_in_order(before),
        is_cancelled_by(before, after, id),
        0 <= i < before.entries@.len(),
    ensures
        before.entries@[i].id != id ==> is_stopped(after, before.entries@[i].token) == is_stopped(
            before,
            before.entries@[i].token,
        ),
        is_first_with(before.entries@, id, i) ==> is_stopped(after, before.entries@[i].token),
{
    let b = before.entries@;
    let a = after.entries@;
    let token = b[i].token;
    if exists|j: int| is_first_with(b, id, j) {
        let j = choose|j: int|
            is_first_with(b, id, j) && a == b.update(
                j,
                DownloadEntry { cancelled: true, ..b[j] },
            );
        assert forall|k: int| 0 <= k < b.len() && (#[trigger] b[k]).token == token implies k == i by {
            if k < i {
                assert(b[k].token < b[i].token);
            } else if i < k {
                assert(b[i].token < b[k].token);
            }
        }
        assert forall|k: int| 0 <= k < a.len() && (#[trigger] a[k]).token == token implies k == i by {
            assert(b[k].token == a[k].token);
        }
        if b[i].id != id {
            assert(a[i] == b[i]);
            assert(is_stopped(after, token) == a[i].cancelled);
            assert(is_stopped(before, token) == b[i].cancelled);
        } else if is_first_with(b, id, i) {
            if i < j {
                assert(b[i].id != id);
            } else if j < i {
                assert(b[j].id != id);
            }
            assert(a[i].cancelled);
        }
    }
}

// ---------------------------------------------------------------------------
// Names
// ---------------------------------------------------------------------------

/// The longest file or folder name, in characters.
pub const NAME_LIMIT: usize = 120;

/// Characters that no name may hold: separators and what Windows refuses.
pub open spec fn is_reserved(c: char) -> bool {
    c == '/' || c == '\\' || c == ':' || c == '*' || c == '?' || c == '"' || c == '<' || c == '>'
        || c == '|'
}

/// A character of a name, made safe.
pub open spec fn safe_char(c: char) -> char {
    if is_reserved(c) || is_control(c) {
        '_'
    } else {
        c
    }
}

/// A name without blanks and dots at its ends.
pub open spec fn bare_name(s: Seq<char>) -> Seq<char> {
    drop_while(
        skip_while(trim(s.map_values(|c: char| safe_char(c))), one_of(seq!['.'])),
        one_of(seq!['.']),
    )
}

/// A name that is safe to put behind a folder.
pub open spec fn safe_name(s: Seq<char>) -> Seq<char> {
    let t = bare_name(s);
    if t.len() == 0 {
        "unnamed"@
    } else if t.len() > NAME_LIMIT {
        t.take(NAME_LIMIT as int)
    } else {
        t
    }
}

/// Strips a name down to something safe to put behind a folder. Names come from
/// the network, so separators and control characters are replaced rather than
/// escaped, and dots at the ends go.
pub fn safe_segment(s: &str) -> (r: String)
    ensures
        r@ == safe_name(s@),
{
    let cs = chars_of(s);
    let mut clean: Vec<char> = Vec::new();
    for i in 0..cs.len()
        invariant
            cs@ == s@,
            clean@ == s@.take(i as int).map_values(|c: char| safe_char(c)),
    {
        let c = cs[i];
        let safe: char = if c == '/' || c == '\\' || c == ':' || c == '*' || c == '?' || c == '"'
            || c == '<' || c == '>' || c == '|' || control(c) {
            '_'
        } else {
            c
        };
        clean.push(safe);
        assert(s@.take(i + 1).map_values(|c: char| safe_char(c)) =~= s@.take(
            i as int,
        ).map_values(|c: char| safe_char(c)).push(safe_char(s@[i as int])));
    }
    assert(s@.take(s@.len() as int) =~= s@);
    let mut dot: Vec<char> = Vec::new();
    dot.push('.');
    assert(dot@ =~= seq!['.']);
    let bare = drop_set(skip_set(trimmed(clean.as_slice()), dot.as_slice()), dot.as_slice());
    if bare.len() == 0 {
        return String::from_str("unnamed");
    }
    if bare.len() > NAME_LIMIT {
        assert(bare@.take(NAME_LIMIT as int) =~= bare@.subrange(0, NAME_LIMIT as int));
        return string_of(slice_subrange(bare, 0, NAME_LIMIT));
    }
    string_of(bare)
}

/// The folders and the file of a download, below the models folder.
pub open spec fn safe_names(parts: Seq<Seq<char>>) -> Seq<Seq<char>> {
    parts.map_values(|p: Seq<char>| safe_name(p))
}

/// `segments` are the folders of the repository's name, then the file's.
pub open spec fn are_hub_segments(segments: Seq<String>, repo: Seq<char>, file: Seq<char>) -> bool {
    texts(segments) == safe_names(split(repo, seq!['/'])).push(safe_name(file))
}

/// The folders and the file that a hub download goes to: those of the repository's
/// name, then the file's.
pub fn hub_segments(repo: &str, file: &str) -> (r: Vec<String>)
    ensures
        are_hub_segments(r@, repo@, file@),
{
    let cs = chars_of(repo);
    let mut slash: Vec<char> = Vec::new();
    slash.push('/');
    assert(slash@ =~= seq!['/']);
    let parts = pieces(cs.as_slice(), slash.as_slice());
    let ghost all = pieces_view(parts@);
    let mut r: Vec<String> = Vec::new();
    assert(texts(r@) =~= safe_names(all.take(0)));
    for i in 0..parts.len()
        invariant
            all == pieces_view(parts@),
            texts(r@) == safe_names(all.take(i as int)),
    {
        assert(all[i as int] == parts@[i as int]@);
        let part = string_of(parts[i].as_slice());
        let name = safe_segment(part.as_str());
        push_text(&mut r, name.as_str());
        assert(safe_names(all.take(i + 1)) =~= safe_names(all.take(i as int)).push(
            safe_name(all[i as int]),
        ));
    }
    assert(all.take(all.len() as int) =~= all);
    let name = safe_segment(file);
    push_text(&mut r, name.as_str());
    r
}

/// The folder and the file that a direct download goes to.
pub fn direct_segments(file: &str) -> (r: Vec<String>)
    ensures
        texts(r@) == seq![safe_name("direct"@), safe_name(file@)],
{
    let mut r: Vec<String> = Vec::new();
    let folder = safe_segment("direct");
    push_text(&mut r, folder.as_str());
    let name = safe_segment(file);
    push_text(&mut r, name.as_str());
    assert(texts(r@) =~= seq![safe_name("direct"@), safe_name(file@)]);
    r
}

/// A safe name cannot lead out of its folder: it is not empty and not too long,
/// holds no separator, no drive colon and no control character, and does not
/// begin with a dot, so it is neither `.` nor `..`.
pub proof fn law_segments_cannot_escape(s: Seq<char>)
    ensures
        0 < safe_name(s).len() <= NAME_LIMIT,
        forall|i: int| 0 <= i < safe_name(s).len() ==> !is_reserved(#[trigger] safe_name(s)[i]),
        forall|i: int| 0 <= i < safe_name(s).len() ==> !is_control(#[trigger] safe_name(s)[i]),
        safe_name(s)[0] != '.',
{
    let c = s.map_values(|c: char| safe_char(c));
    let dots = one_of(seq!['.']);
    let t = trim(c);
    let a = c.len() - skip_while(c, spaces()).len();
    let u = skip_while(t, dots);
    let d = t.len() - u.len();
    let bare = bare_name(s);
    lemma_skip_while(c, spaces());
    lemma_drop_while(skip_while(c, spaces()), spaces());
    lemma_skip_while(t, dots);
    lemma_drop_while(u, dots);
    reveal_strlit("unnamed");
    if bare.len() == 0 {
        assert(safe_name(s) =~= seq!['u', 'n', 'n', 'a', 'm', 'e', 'd']);
    } else {
        assert forall|i: int| 0 <= i < safe_name(s).len() implies !is_reserved(
            #[trigger] safe_name(s)[i],
        ) && !is_control(safe_name(s)[i]) by {
            assert(safe_name(s)[i] == bare[i]);
            assert(bare[i] == u[i]);
            assert(u[i] == t[d + i]);
            assert(t[d + i] == c.skip(a)[d + i]);
            assert(c.skip(a)[d + i] == c[a + d + i]);
            assert(c[a + d + i] == safe_char(s[a + d + i]));
        }
        assert(safe_name(s)[0] == bare[0] && bare[0] == u[0]);
        assert(!dots(u[0]));
        assert(seq!['.'][0] == '.');
        if u[0] == '.' {
            assert(seq!['.'].contains('.'));
        }
    }
}

// ---------------------------------------------------------------------------
// Quant labels
// ---------------------------------------------------------------------------

/// A text is `lead` and a digit, and whatever follows.
pub open spec fn leads_to_digit(u: Seq<char>, lead: Seq<char>) -> bool {
    begins(u, lead) && u.len() > lead.len() && is_digit(u[lead.len() as int])
}

/// An upper-case part of a file name is a quant label: `Q` or `IQ` and a digit, as
/// in `Q4_K_M`, or one of the float types. A model's own name, such as `QWEN3`, is
/// none.
pub open spec fn is_quant_part(u: Seq<char>) -> bool {
    leads_to_digit(u, "Q"@) || leads_to_digit(u, "IQ"@) || u == "F16"@ || u == "F32"@ || u
        == "BF16"@
}

/// The last of the first `n` parts that is a quant label, in upper case.
pub open spec fn last_quant(parts: Seq<Seq<char>>, n: int) -> Option<Seq<char>>
    decreases n,
{
    if n <= 0 {
        None
    } else if is_quant_part(upper(parts[n - 1])) {
        Some(upper(parts[n - 1]))
    } else {
        last_quant(parts, n - 1)
    }
}

/// A file name without its `.gguf`.
pub open spec fn stem_of(name: Seq<char>) -> Seq<char> {
    if ends(name, ".gguf"@) {
        name.take(name.len() - ".gguf"@.len())
    } else {
        name
    }
}

/// The quant label in a file name: the last of its parts, between hyphens and
/// dots, that is one.
pub open spec fn quant_in(name: Seq<char>) -> Option<Seq<char>> {
    let parts = split(stem_of(name), seq!['-', '.']);
    last_quant(parts, parts.len() as int)
}

/// `leads_to_digit`, computed.
fn digit_behind(u: &[char], lead: &str) -> (r: bool)
    ensures
        r == leads_to_digit(u@, lead@),
{
    let n = chars_of(lead).len();
    starts_with(u, lead) && u.len() > n && digit(u[n])
}

/// Whether an upper-case part of a file name is a quant label.
fn names_quant(u: &[char]) -> (r: bool)
    ensures
        r == is_quant_part(u@),
{
    let half = chars_of("F16");
    let full = chars_of("F32");
    let brain = chars_of("BF16");
    digit_behind(u, "Q") || digit_behind(u, "IQ") || same_chars(u, half.as_slice()) || same_chars(
        u,
        full.as_slice(),
    ) || same_chars(u, brain.as_slice())
}

/// A file name without its `.gguf`.
fn stem(name: &[char]) -> (r: &[char])
    ensures
        r@ == stem_of(name@),
{
    if ends_with(name, ".gguf") {
        let n = chars_of(".gguf").len();
        assert(name@.take(name@.len() - n) =~= name@.subrange(0, name@.len() - n));
        slice_subrange(name, 0, name.len() - n)
    } else {
        name
    }
}

/// Reads the quant label out of a file name.
pub fn quant_from_name(name: &str) -> (r: Option<String>)
    ensures
        opt_view(r) == quant_in(name@),
{
    let cs = chars_of(name);
    let mut marks: Vec<char> = Vec::new();
    marks.push('-');
    marks.push('.');
    assert(marks@ =~= seq!['-', '.']);
    let parts = pieces(stem(cs.as_slice()), marks.as_slice());
    let ghost all = pieces_view(parts@);
    let mut i: usize = parts.len();
    while i > 0
        invariant
            i <= parts@.len(),
            all == pieces_view(parts@),
            quant_in(name@) == last_quant(all, i as int),
        decreases i,
    {
        i = i - 1;
        assert(all[i as int] == parts@[i as int]@);
        let u = to_upper(parts[i].as_slice());
        if names_quant(u.as_slice()) {
            return Some(string_of(u.as_slice()));
        }
    }
    None
}

// ---------------------------------------------------------------------------
// Queries
// ---------------------------------------------------------------------------

/// Bytes that a query may hold as they are.
pub open spec fn is_unreserved(b: u8) -> bool {
    ||| 0x41 <= b <= 0x5a
    ||| 0x61 <= b <= 0x7a
    ||| 0x30 <= b <= 0x39
    ||| b == 0x2d
    ||| b == 0x5f
    ||| b == 0x2e
    ||| b == 0x7e
}

/// An upper-case hexadecimal digit.
pub open spec fn hex_char(d: u8) -> char {
    if d < 10 {
        (0x30 + d) as char
    } else {
        (0x41 + d - 10) as char
    }
}

/// A byte as it stands in a query.
pub open spec fn encoded_byte(b: u8) -> Seq<char> {
    if is_unreserved(b) {
        seq![b as char]
    } else if b == 0x20 {
        seq!['+']
    } else {
        seq!['%', hex_char(b / 16), hex_char(b % 16)]
    }
}

/// Bytes as they stand in a query.
pub open spec fn encoded(bytes: Seq<u8>) -> Seq<char>
    decreases bytes.len(),
{
    if bytes.len() == 0 {
        Seq::empty()
    } else {
        encoded(bytes.drop_last()) + encoded_byte(bytes.last())
    }
}

/// A hexadecimal digit.
fn hex(d: u8) -> (c: char)
    requires
        d < 16,
    ensures
        c == hex_char(d),
{
    if d < 10 {
        (0x30 + d) as char
    } else {
        (0x41 + d - 10) as char
    }
}

/// Percent-encodes a text for a query: the bytes of its UTF-8 form, blanks as
/// plus signs.
pub fn urlencode(s: &str) -> (r: String)
    ensures
        r@ == encoded(encode_utf8(s@)),
{
    let bytes = s.as_bytes();
    let mut r = String::new();
    assert(r@ =~= encoded(bytes@.take(0)));
    for i in 0..bytes.len()
        invariant
            r@ == encoded(bytes@.take(i as int)),
    {
        let b = bytes[i];
        let ghost before = r@;
        if (0x41 <= b && b <= 0x5a) || (0x61 <= b && b <= 0x7a) || (0x30 <= b && b <= 0x39) || b
            == 0x2d || b == 0x5f || b == 0x2e || b == 0x7e {
            r.push(b as char);
        } else if b == 0x20 {
            r.push('+');
        } else {
            r.push('%');
            r.push(hex(b / 16));
            r.push(hex(b % 16));
        }
        assert(bytes@.take(i + 1).drop_last() =~= bytes@.take(i as int));
        assert(r@ =~= before + encoded_byte(b));
    }
    assert(bytes@.take(bytes@.len() as int) =~= bytes@);
    r
}

/// A query holds letters, digits and the marks `-_.~+%` only.
pub proof fn law_query_is_plain(bytes: Seq<u8>, i: int)
    requires
        0 <= i < encoded(bytes).len(),
    ensures
        is_alnum(encoded(bytes)[i]) || encoded(bytes)[i] == '-' || encoded(bytes)[i] == '_'
            || encoded(bytes)[i] == '.' || encoded(bytes)[i] == '~' || encoded(bytes)[i] == '+'
            || encoded(bytes)[i] == '%',
    decreases bytes.len(),
{
    let front = encoded(bytes.drop_last());
    if i < front.len() {
        law_query_is_plain(bytes.drop_last(), i);
    } else {
        let b = bytes.last();
        assert(encoded(bytes)[i] == encoded_byte(b)[i - front.len()]);
    }
}

/// What authorizes a request, for a token that is not blank.
pub open spec fn authorization(token: Option<Seq<char>>) -> Option<Seq<char>> {
    match token {
        Some(t) => if trim(t).len() > 0 {
            Some("Bearer "@ + trim(t))
        } else {
            None
        },
        None => None,
    }
}

/// The value of the authorization header for a token that is not blank.
pub fn bearer(token: Option<&str>) -> (r: Option<String>)
    ensures
        opt_view(r) == authorization(opt_str_view(token)),
{
    match token {
        Some(t) => {
            let cs = chars_of(t);
            let bare = trimmed(cs.as_slice());
            if bare.len() == 0 {
                return None;
            }
            let mut s = String::from_str("Bearer ");
            s.append(string_of(bare).as_str());
            Some(s)
        },
        None => None,
    }
}

/// Where the hub is searched.
pub open spec fn search_link(query: Seq<char>) -> Seq<char> {
    "https://huggingface.co/api/models?search="@ + encoded(encode_utf8(query))
        + "&filter=gguf&sort=downloads&direction=-1&limit=30"@
}

/// Where the files of a repository are listed.
pub open spec fn files_link(repo: Seq<char>) -> Seq<char> {
    "https://huggingface.co/api/models/"@ + repo + "?blobs=true"@
}

/// Where a file of a repository is.
pub open spec fn file_link(repo: Seq<char>, file: Seq<char>) -> Seq<char> {
    "https://huggingface.co/"@ + repo + "/resolve/main/"@ + file
}

/// Where the hub is searched for GGUF repositories, most downloaded first.
pub fn search_url(query: &str) -> (s: String)
    ensures
        s@ == search_link(query@),
{
    let mut s = String::from_str("https://huggingface.co/api/models?search=");
    s.append(urlencode(query).as_str());
    s.append("&filter=gguf&sort=downloads&direction=-1&limit=30");
    s
}

/// Where the files of a repository are listed.
pub fn files_url(repo: &str) -> (s: String)
    ensures
        s@ == files_link(repo@),
{
    let mut s = String::from_str("https://huggingface.co/api/models/");
    s.append(repo);
    s.append("?blobs=true");
    s
}

/// Where a file of a repository is.
pub fn hub_file_url(repo: &str, file: &str) -> (s: String)
    ensures
        s@ == file_link(repo@, file@),
{
    let mut s = String::from_str("https://huggingface.co/");
    s.append(repo);
    s.append("/resolve/main/");
    s.append(file);
    s
}

/// A repository in a search result is one that has a name.
pub open spec fn names_model(j: JsonView) -> bool {
    text_of(field(j, "modelId"@)) is Some
}

/// A number, or 0 where there is none.
pub open spec fn count_in(j: JsonView, key: Seq<char>) -> u64 {
    match whole_of(field(j, key)) {
        Some(n) => n,
        None => 0,
    }
}

/// A member is there and says yes: it is not null, `false`, 0 or the empty text.
pub open spec fn truthy(j: Option<JsonView>) -> bool {
    match j {
        Some(JsonView::Null) => false,
        Some(JsonView::Bool(b)) => b,
        Some(JsonView::Number(n)) => magnitude(n.float) != 0,
        Some(JsonView::Text(s)) => s.len() > 0,
        Some(_) => true,
        None => false,
    }
}

/// Whether a member is there and says yes.
fn is_truthy(j: Option<&Json>) -> (r: bool)
    ensures
        r == truthy(opt_tree(j)),
{
    match j {
        Some(Json::Null) => false,
        Some(Json::Bool(b)) => *b,
        Some(Json::Number(n)) => n.float.bits % SIGN != 0,
        Some(Json::Text(s)) => chars_of(s.as_str()).len() > 0,
        Some(_) => true,
        None => false,
    }
}

/// `m` is the repository that `j` describes. Its `gated` is `false`, `"auto"` or
/// `"manual"`; anything that says yes needs a token.
pub open spec fn is_model(m: HfModel, j: JsonView) -> bool {
    &&& text_of(field(j, "modelId"@)) == Some(m.id@)
    &&& m.downloads == count_in(j, "downloads"@)
    &&& m.likes == count_in(j, "likes"@)
    &&& m.gated == truthy(field(j, "gated"@))
}

/// `models` are the repositories of a search result, in its order.
pub open spec fn are_models(models: Seq<HfModel>, list: Seq<JsonView>) -> bool
    decreases list.len(),
{
    if list.len() == 0 {
        models.len() == 0
    } else if names_model(list.last()) {
        models.len() > 0 && is_model(models.last(), list.last()) && are_models(
            models.drop_last(),
            list.drop_last(),
        )
    } else {
        are_models(models, list.drop_last())
    }
}

/// The number of a member, or 0.
fn count_of(j: &Json, key: &str) -> (n: u64)
    ensures
        n == count_in(j@, key@),
{
    match as_whole(get(Some(j), key)) {
        Some(n) => n,
        None => 0,
    }
}

/// The repositories of a search result that was read.
pub fn models_in(list: &Vec<Json>) -> (models: Vec<HfModel>)
    ensures
        are_models(models@, views(list@)),
{
    let mut models: Vec<HfModel> = Vec::new();
    let ghost all = views(list@);
    for i in 0..list.len()
        invariant
            all == views(list@),
            are_models(models@, all.take(i as int)),
    {
        let j = &list[i];
        proof {
            assert(all[i as int] == j@);
            assert(all.take(i + 1).drop_last() =~= all.take(i as int));
        }
        if let Some(id) = as_text(get(Some(j), "modelId")) {
            let gated = is_truthy(get(Some(j), "gated"));
            let m = HfModel {
                id: id.clone(),
                downloads: count_of(j, "downloads"),
                likes: count_of(j, "likes"),
                gated,
            };
            let ghost before = models@;
            models.push(m);
            assert(models@.drop_last() =~= before);
        }
    }
    assert(all.take(all.len() as int) =~= all);
    models
}

/// The repositories in the text of a search result.
pub fn search_results(body: &str) -> (r: Result<Vec<HfModel>, String>)
    ensures
        match document_list(body@) {
            Ok(list) => r is Ok && are_models(r->Ok_0@, list),
            Err(e) => r is Err && r->Err_0@ == e,
        },
{
    match parse_json_list(body) {
        Ok(list) => Ok(models_in(&list)),
        Err(e) => Err(e),
    }
}

/// What is said of a listing that failed.
pub open spec fn listing_message(repo: Seq<char>, error: Seq<char>) -> Seq<char> {
    if occurs(error, "401"@) || occurs(error, "403"@) {
        repo + " is gated — add a Hugging Face token in settings"@
    } else {
        "could not read "@ + repo + ": "@ + error
    }
}

/// The error of a listing that failed: a refusal means that a token is needed.
pub fn listing_error(repo: &str, error: &str) -> (s: String)
    ensures
        s@ == listing_message(repo@, error@),
{
    if str_contains(error, "401") || str_contains(error, "403") {
        let mut s = String::from_str(repo);
        s.append(" is gated — add a Hugging Face token in settings");
        s
    } else {
        let mut s = String::from_str("could not read ");
        s.append(repo);
        s.append(": ");
        s.append(error);
        s
    }
}

/// A file of a listing is a model: its name ends in `.gguf`, in any case.
pub open spec fn names_gguf(j: JsonView) -> bool {
    match text_of(field(j, "rfilename"@)) {
        Some(name) => ends(lower(name), ".gguf"@),
        None => false,
    }
}

/// `f` is the file that `j` describes.
pub open spec fn is_hub_file(f: HfFile, j: JsonView) -> bool {
    &&& text_of(field(j, "rfilename"@)) == Some(f.name@)
    &&& f.size_bytes == count_in(j, "size"@)
    &&& opt_view(f.quant) == quant_in(f.name@)
}

/// The files that a listing holds.
pub open spec fn siblings(repo: JsonView) -> Seq<JsonView> {
    match items_of(field(repo, "siblings"@)) {
        Some(list) => list,
        None => Seq::empty(),
    }
}

/// Which files are offered.
pub open spec fn gguf_files(list: Seq<JsonView>) -> spec_fn(int) -> bool {
    |i: int| names_gguf(list[i])
}

/// Which row shows which file.
pub open spec fn shows_file(list: Seq<JsonView>) -> spec_fn(HfFile, int) -> bool {
    |f: HfFile, i: int| is_hub_file(f, list[i])
}

/// The smallest files come first.
pub open spec fn smallest_first() -> spec_fn(HfFile, HfFile) -> bool {
    |a: HfFile, b: HfFile| a.size_bytes < b.size_bytes
}

/// `files` are the GGUF files of a listing, the smallest first; `from` names the
/// row of each.
pub open spec fn are_files(files: Seq<HfFile>, from: Seq<int>, list: Seq<JsonView>) -> bool {
    is_sorted_pick(
        files,
        from,
        list.len() as int,
        gguf_files(list),
        shows_file(list),
        smallest_first(),
    )
}

/// `files` are the GGUF files of a listing, the smallest first.
pub open spec fn lists_files(files: Seq<HfFile>, repo: JsonView) -> bool {
    exists|from: Seq<int>| are_files(files, from, siblings(repo))
}

/// The file that a row of a listing describes, if it is a model.
fn hub_file(j: &Json) -> (r: Option<HfFile>)
    ensures
        match r {
            Some(f) => names_gguf(j@) && is_hub_file(f, j@),
            None => !names_gguf(j@),
        },
{
    match as_text(get(Some(j), "rfilename")) {
        Some(name) => {
            let cs = chars_of(name.as_str());
            let low = to_lower(cs.as_slice());
            if !ends_with(low.as_slice(), ".gguf") {
                return None;
            }
            Some(
                HfFile {
                    size_bytes: count_of(j, "size"),
                    quant: quant_from_name(name.as_str()),
                    name: name.clone(),
                },
            )
        },
        None => None,
    }
}

/// The GGUF files of a listing that was read.
pub fn files_in(repo: &Json) -> (files: Vec<HfFile>)
    ensures
        lists_files(files@, repo@),
{
    let mut files: Vec<HfFile> = Vec::new();
    let ghost mut from: Seq<int> = Seq::empty();
    let ghost list = siblings(repo@);
    match as_items(get(Some(repo), "siblings")) {
        Some(items) => {
            for i in 0..items.len()
                invariant
                    list == views(items@),
                    is_sorted_pick(
                        files@,
                        from,
                        i as int,
                        gguf_files(list),
                        shows_file(list),
                        smallest_first(),
                    ),
            {
                assert(list[i as int] == items@[i as int]@);
                match hub_file(&items[i]) {
                    Some(f) => {
                        let mut p: usize = 0;
                        while p < files.len() && f.size_bytes >= files[p].size_bytes
                            invariant
                                p <= files@.len(),
                                forall|k: int|
                                    0 <= k < p ==> !smallest_first()(f, #[trigger] files@[k]),
                            decreases files@.len() - p,
                        {
                            p = p + 1;
                        }
                        proof {
                            assert(is_order(smallest_first()));
                            assert(gguf_files(list)(i as int));
                            assert(shows_file(list)(f, i as int));
                            lemma_insert(
                                files@,
                                from,
                                i as int,
                                p as int,
                                f,
                                gguf_files(list),
                                shows_file(list),
                                smallest_first(),
                            );
                            from = from.insert(p as int, i as int);
                        }
                        files.insert(p, f);
                    },
                    None => {
                        proof {
                            assert(!gguf_files(list)(i as int));
                            lemma_skip(
                                files@,
                                from,
                                i as int,
                                gguf_files(list),
                                shows_file(list),
                                smallest_first(),
                            );
                        }
                    },
                }
            }
        },
        None => {},
    }
    assert(are_files(files@, from, list));
    files
}

/// The GGUF files in the text of a listing.
pub fn file_results(body: &str) -> (r: Result<Vec<HfFile>, String>)
    ensures
        match document(body@) {
            Ok(repo) => r is Ok && lists_files(r->Ok_0@, repo),
            Err(e) => r is Err && r->Err_0@ == e,
        },
{
    match parse_json(body) {
        Ok(repo) => Ok(files_in(&repo)),
        Err(e) => Err(e),
    }
}

// ---------------------------------------------------------------------------
// Direct links
// ---------------------------------------------------------------------------

/// The file that a link names: what stands behind its last slash, without a query.
pub open spec fn link_file(url: Seq<char>) -> Seq<char> {
    split(head_of(url, "?"@), seq!['/']).last()
}

/// `r` is the file name of a direct link.
pub open spec fn is_direct_file(r: Result<String, String>, url: Seq<char>) -> bool {
    if !begins(url, "https://"@) {
        r is Err && r->Err_0@ == "only https:// URLs are accepted"@
    } else if !ends(lower(link_file(url)), ".gguf"@) {
        r is Err && r->Err_0@ == "that URL does not point at a .gguf file"@
    } else {
        r is Ok && r->Ok_0@ == link_file(url)
    }
}

/// The file name of a direct link. Only secure links to a GGUF file are taken.
pub fn direct_file(url: &str) -> (r: Result<String, String>)
    ensures
        is_direct_file(r, url@),
{
    if !str_starts_with(url, "https://") {
        return Err(String::from_str("only https:// URLs are accepted"));
    }
    let cs = chars_of(url);
    let query = chars_of("?");
    let path = before(cs.as_slice(), query.as_slice());
    let mut slash: Vec<char> = Vec::new();
    slash.push('/');
    assert(slash@ =~= seq!['/']);
    let parts = pieces(path, slash.as_slice());
    let n = parts.len();
    assert(pieces_view(parts@).last() == parts@[n - 1]@);
    let name = parts[n - 1].as_slice();
    let low = to_lower(name);
    if !ends_with(low.as_slice(), ".gguf") {
        return Err(String::from_str("that URL does not point at a .gguf file"));
    }
    Ok(string_of(name))
}

// ---------------------------------------------------------------------------
// Transfers
// ---------------------------------------------------------------------------

/// A transfer to a partial file.
#[derive(Debug, Clone, Copy)]
pub struct Transfer {
    /// The server honours the resume: what arrives is added to the partial file.
    pub resuming: bool,
    /// Bytes of the whole file, 0 where that is unknown.
    pub total: u64,
    /// Bytes that the transfer began with.
    pub start: u64,
    /// Bytes that are there.
    pub received: u64,
}

/// The bytes that are still to come, when a partial file is there.
pub open spec fn range_from(already: u64) -> Option<Seq<char>> {
    if already > 0 {
        Some("bytes="@ + decimal(already as nat) + "-"@)
    } else {
        None
    }
}

/// The range to ask for, when a partial file is there.
pub fn range_header(already: u64) -> (r: Option<String>)
    ensures
        opt_view(r) == range_from(already),
{
    if already == 0 {
        return None;
    }
    let mut s = String::from_str("bytes=");
    s.append(number(already).as_str());
    s.append("-");
    Some(s)
}

/// The bytes that a response announces, 0 where it does not say.
pub open spec fn announced(content_length: Option<Seq<char>>) -> nat {
    match content_length {
        Some(s) => match unsigned(s, u64::MAX as nat) {
            Some(n) => n,
            None => 0,
        },
        None => 0,
    }
}

/// The server honours a resume: it sends part of the file, and part is there.
pub open spec fn resumes(already: u64, status: u16) -> bool {
    status == 206 && already > 0
}

/// 64 bits can count the whole file.
pub open spec fn transfer_countable(
    already: u64,
    status: u16,
    content_length: Option<Seq<char>>,
) -> bool {
    resumes(already, status) ==> already + announced(content_length) <= u64::MAX
}

/// `announced`, computed.
fn announced_in(content_length: Option<&str>) -> (n: u64)
    ensures
        n as nat == announced(opt_str_view(content_length)),
{
    match content_length {
        Some(s) => {
            let cs = chars_of(s);
            match parse_unsigned(cs.as_slice(), u64::MAX) {
                Some(n) => n,
                None => 0,
            }
        },
        None => 0,
    }
}

/// Whether 64 bits can count the whole file.
pub fn is_transfer_countable(already: u64, status: u16, content_length: Option<&str>) -> (r: bool)
    ensures
        r == transfer_countable(already, status, opt_str_view(content_length)),
{
    !(status == 206 && already > 0) || announced_in(content_length) <= u64::MAX - already
}

/// `t` is how a response is to be taken: a resumed file begins with what is there
/// and counts it, a new one begins empty.
pub open spec fn is_planned(
    t: Transfer,
    already: u64,
    status: u16,
    content_length: Option<Seq<char>>,
) -> bool {
    let kept = if resumes(already, status) {
        already
    } else {
        0
    };
    &&& t.resuming == resumes(already, status)
    &&& t.total == kept + announced(content_length)
    &&& t.start == kept
    &&& t.received == kept
}

/// `after` is `before` with `n` more bytes.
pub open spec fn is_added(before: Transfer, after: Transfer, n: nat) -> bool {
    &&& after.received == before.received + n
    &&& after == (Transfer { received: after.received, ..before })
}

/// The whole file is there, as far as its size is known.
pub open spec fn is_complete(t: Transfer) -> bool {
    t.total == 0 || t.received >= t.total
}

/// What the next read of a stream met.
#[derive(Debug, Clone)]
pub enum TransferEvent {
    /// The download was cancelled before the read.
    Cancelled,
    /// So many bytes were read and written.
    Written(u64),
    ReadFailed(String),
    WriteFailed(String),
    /// The stream has ended.
    Ended,
}

/// What is to follow.
#[derive(Debug, Clone)]
pub enum TransferAction {
    /// Read on.
    Continue,
    /// Leave the partial file as it is, so that it can be resumed.
    Keep,
    /// Give up, with this message; the partial file stays.
    Fail(String),
    /// The file is complete: give it its name.
    Publish,
}

/// `a` gives up with this message.
pub open spec fn gives_up(a: TransferAction, message: Seq<char>) -> bool {
    a matches TransferAction::Fail(s) && s@ == message
}

/// What is missing from a file whose stream has ended.
pub open spec fn closed_early(t: Transfer) -> Seq<char> {
    "connection closed early: got "@ + decimal(t.received as nat) + " of "@ + decimal(
        t.total as nat,
    ) + " bytes — retry to resume"@
}

/// `a` is what follows an event, and `after` the transfer then.
pub open spec fn is_step(
    before: Transfer,
    after: Transfer,
    event: TransferEvent,
    a: TransferAction,
) -> bool {
    match event {
        TransferEvent::Cancelled => a is Keep && after == before,
        TransferEvent::Written(n) => a is Continue && is_added(before, after, n as nat),
        TransferEvent::ReadFailed(e) => gives_up(a, "read failed: "@ + e@) && after == before,
        TransferEvent::WriteFailed(e) => gives_up(a, "write failed (out of disk?): "@ + e@)
            && after == before,
        TransferEvent::Ended => {
            &&& after == before
            &&& if is_complete(before) {
                a is Publish
            } else {
                gives_up(a, closed_early(before))
            }
        },
    }
}

impl Transfer {
    /// Decides how a response is to be taken. A server that ignores the range
    /// sends the whole file, so what is there must be discarded.
    pub fn plan(already: u64, status: u16, content_length: Option<&str>) -> (t: Transfer)
        requires
            transfer_countable(already, status, opt_str_view(content_length)),
        ensures
            is_planned(t, already, status, opt_str_view(content_length)),
    {
        let remaining = announced_in(content_length);
        if status == 206 && already > 0 {
            Transfer {
                resuming: true,
                total: already + remaining,
                start: already,
                received: already,
            }
        } else {
            Transfer { resuming: false, total: remaining, start: 0, received: 0 }
        }
    }

    /// Counts bytes that were written.
    pub fn add(&mut self, n: u64)
        requires
            old(self).received + n <= u64::MAX,
        ensures
            is_added(*old(self), *final(self), n as nat),
    {
        self.received = self.received + n;
    }

    /// Bytes per second since the transfer began, over at least a millisecond.
    pub fn rate(&self, secs: Binary64) -> (r: Binary64)
        requires
            self.start <= self.received,
        ensures
            r == over(
                of_whole((self.received - self.start) as nat),
                at_least_a_millisecond(secs),
            ),
    {
        let floor = Binary64 { bits: MILLISECOND };
        let span = if floor.at_most(secs) {
            secs
        } else {
            floor
        };
        Binary64::of(self.received - self.start).over(span)
    }

    /// Decides whether the file is complete once the stream has ended.
    pub fn finish(&self) -> (r: Result<(), String>)
        ensures
            r is Ok <==> is_complete(*self),
            r is Err ==> r->Err_0@ == closed_early(*self),
    {
        if self.total > 0 && self.received < self.total {
            let mut s = String::from_str("connection closed early: got ");
            s.append(number(self.received).as_str());
            s.append(" of ");
            s.append(number(self.total).as_str());
            s.append(" bytes — retry to resume");
            return Err(s);
        }
        Ok(())
    }

    /// Decides what follows the next read.
    pub fn step(&mut self, event: &TransferEvent) -> (a: TransferAction)
        requires
            *event matches TransferEvent::Written(n) ==> old(self).received + n <= u64::MAX,
        ensures
            is_step(*old(self), *final(self), *event, a),
    {
        match event {
            TransferEvent::Cancelled => TransferAction::Keep,
            TransferEvent::Written(n) => {
                self.add(*n);
                TransferAction::Continue
            },
            TransferEvent::ReadFailed(e) => {
                let mut s = String::from_str("read failed: ");
                s.append(e.as_str());
                TransferAction::Fail(s)
            },
            TransferEvent::WriteFailed(e) => {
                let mut s = String::from_str("write failed (out of disk?): ");
                s.append(e.as_str());
                TransferAction::Fail(s)
            },
            TransferEvent::Ended => match self.finish() {
                Ok(_) => TransferAction::Publish,
                Err(s) => TransferAction::Fail(s),
            },
        }
    }
}

/// The binary64 number 0.001.
pub const MILLISECOND: u64 = 0x3f50_624d_d2f1_a9fc;

/// A time span, at least a millisecond.
pub open spec fn at_least_a_millisecond(secs: Binary64) -> Binary64 {
    if at_most(Binary64 { bits: MILLISECOND }, secs) {
        secs
    } else {
        Binary64 { bits: MILLISECOND }
    }
}

/// A transfer is complete exactly when as many bytes have arrived as the response
/// announced, whether it was resumed or began anew: a resumed download loses
/// nothing, and nothing incomplete is published.
pub proof fn law_transfer_completes_with_what_was_announced(
    already: u64,
    status: u16,
    content_length: Option<Seq<char>>,
    before: Transfer,
    arrived: nat,
    after: Transfer,
)
    requires
        is_planned(before, already, status, content_length),
        is_added(before, after, arrived),
        announced(content_length) > 0,
    ensures
        is_complete(after) <==> arrived >= announced(content_length),
{
}

/// Only a complete file is published, and only once its stream has ended; a
/// download that was cancelled keeps what has arrived.
pub proof fn law_only_complete_files_are_published(
    before: Transfer,
    after: Transfer,
    event: TransferEvent,
    a: TransferAction,
)
    requires
        is_step(before, after, event, a),
    ensures
        a is Publish ==> event is Ended && is_complete(after),
        event is Cancelled ==> a is Keep && after.received == before.received,
{
}

/// Bytes that arrive in two goes count as those that arrive in one.
pub proof fn law_bytes_add_up(a: Transfer, b: Transfer, c: Transfer, m: nat, n: nat)
    requires
        is_added(a, b, m),
        is_added(b, c, n),
    ensures
        is_added(a, c, m + n),
{
}

/// `p` says how a download stands.
pub open spec fn is_progress(p: Progress, id: u64, t: Transfer, secs: Binary64) -> bool {
    &&& p.id == id
    &&& p.received == t.received
    &&& p.total == t.total
    &&& p.bytes_per_sec == over(
        of_whole((t.received - t.start) as nat),
        at_least_a_millisecond(secs),
    )
    &&& !p.done
    &&& !p.cancelled
    &&& p.path is None
    &&& p.error is None
}

/// How a download stands.
pub fn progress_at(id: u64, t: &Transfer, secs: Binary64) -> (p: Progress)
    requires
        t.start <= t.received,
    ensures
        is_progress(p, id, *t, secs),
{
    Progress {
        id,
        received: t.received,
        total: t.total,
        bytes_per_sec: t.rate(secs),
        done: false,
        cancelled: false,
        path: None,
        error: None,
    }
}

/// `p` says how a download ended.
pub open spec fn is_end(p: Progress, id: u64, outcome: Result<Option<String>, String>) -> bool {
    &&& p.id == id
    &&& p.received == 0
    &&& p.total == 0
    &&& p.bytes_per_sec == (Binary64 { bits: 0 })
    &&& p.done
    &&& p.cancelled == (outcome matches Ok(None))
    &&& p.path == (match outcome {
        Ok(path) => path,
        Err(_) => None,
    })
    &&& p.error == (match outcome {
        Ok(_) => None,
        Err(e) => Some(e),
    })
}

/// How a download ended: with a file, cancelled, or with an error.
pub fn progress_end(id: u64, outcome: Result<Option<String>, String>) -> (p: Progress)
    ensures
        is_end(p, id, outcome),
{
    let mut p = Progress {
        id,
        received: 0,
        total: 0,
        bytes_per_sec: Binary64::zero(),
        done: true,
        cancelled: false,
        path: None,
        error: None,
    };
    match outcome {
        Ok(Some(path)) => {
            p.path = Some(path);
        },
        Ok(None) => {
            p.cancelled = true;
        },
        Err(e) => {
            p.error = Some(e);
        },
    }
    p
}

// ---------------------------------------------------------------------------
// Ollama
// ---------------------------------------------------------------------------

/// Where the `ollama` program is, if it is anywhere.
pub fn which_ollama(places: &Vec<Place>) -> (r: Option<String>)
    ensures
        opt_view(r) == first_file(places@, 0),
{
    find_file(places)
}

/// Whether the `ollama` program is anywhere.
pub fn ollama_available(places: &Vec<Place>) -> (r: bool)
    ensures
        r == (first_file(places@, 0) is Some),
{
    which_ollama(places).is_some()
}

/// A character that no model name may hold.
pub open spec fn is_shell_mark(c: char) -> bool {
    c == '&' || c == '|' || c == ';' || c == '\n'
}

/// A name may be handed to `ollama pull`.
pub open spec fn is_pullable(model: Seq<char>) -> bool {
    &&& trim(model).len() > 0
    &&& forall|i: int| 0 <= i < model.len() ==> !is_shell_mark(#[trigger] model[i])
}

/// `r` says whether a model can be pulled, and with what.
pub open spec fn is_pull_check(
    r: Result<(String, String), String>,
    places: Seq<Place>,
    model: Seq<char>,
) -> bool {
    match first_file(places, 0) {
        None => r is Err && r->Err_0@ == "ollama is not installed or not on PATH"@,
        Some(exe) => if is_pullable(model) {
            r is Ok && r->Ok_0.0@ == exe && r->Ok_0.1@ == trim(model)
        } else {
            r is Err && r->Err_0@ == "invalid model name"@
        },
    }
}

/// Checks what is needed for `ollama pull`: the program, then the model's name.
/// Gives the program and the trimmed name.
pub fn check_pull(places: &Vec<Place>, model: &str) -> (r: Result<(String, String), String>)
    ensures
        is_pull_check(r, places@, model@),
{
    let exe = match which_ollama(places) {
        Some(p) => p,
        None => {
            return Err(String::from_str("ollama is not installed or not on PATH"));
        },
    };
    let cs = chars_of(model);
    let bare = trimmed(cs.as_slice());
    if bare.len() == 0 {
        return Err(String::from_str("invalid model name"));
    }
    for i in 0..cs.len()
        invariant
            cs@ == model@,
            first_file(places@, 0) is Some,
            forall|k: int| 0 <= k < i ==> !is_shell_mark(#[trigger] cs@[k]),
    {
        let c = cs[i];
        if c == '&' || c == '|' || c == ';' || c == '\n' {
            assert(is_shell_mark(model@[i as int]));
            return Err(String::from_str("invalid model name"));
        }
    }
    Ok((exe, string_of(bare)))
}

/// What a look at the `ollama` process met.
#[derive(Debug, Clone)]
pub enum PullState {
    Running,
    /// It has printed a line of its progress.
    Printed(String),
    /// It has ended: whether with success, and its exit status.
    Exited { success: bool, status: String },
    /// It could not be looked at.
    Failed(String),
}

/// A line of a pull's progress, with the download that it is of.
#[derive(Debug, Clone)]
pub struct PullLine {
    pub id: u64,
    pub line: String,
}

/// What is to follow.
#[derive(Debug, Clone)]
pub enum PullAction {
    /// Look again later.
    Wait,
    /// Pass on a line of the progress, and look again.
    Show(PullLine),
    /// End the process, and pass on that the download was cancelled.
    Kill(Progress),
    /// Pass on how the download ended.
    Report(Progress),
}

/// `p` says that download `id` has ended, cancelled or with this error.
pub open spec fn says_ended(p: Progress, id: u64, cancelled: bool, error: Option<Seq<char>>) -> bool {
    &&& p.id == id
    &&& p.received == 0
    &&& p.total == 0
    &&& p.bytes_per_sec == (Binary64 { bits: 0 })
    &&& p.done
    &&& p.cancelled == cancelled
    &&& p.path is None
    &&& opt_view(p.error) == error
}

/// How a download that gives no file ended.
fn ended(id: u64, cancelled: bool, error: Option<String>) -> (p: Progress)
    ensures
        says_ended(p, id, cancelled, opt_view(error)),
{
    Progress {
        id,
        received: 0,
        total: 0,
        bytes_per_sec: Binary64::zero(),
        done: true,
        cancelled,
        path: None,
        error,
    }
}

/// The end of a pull whose process could not be started.
pub fn pull_not_started(id: u64, error: &str) -> (p: Progress)
    ensures
        says_ended(p, id, false, Some("could not run ollama: "@ + error@)),
{
    let mut s = String::from_str("could not run ollama: ");
    s.append(error);
    ended(id, false, Some(s))
}

/// `a` is what follows a look at the process.
pub open spec fn is_pull_step(id: u64, cancelled: bool, seen: PullState, a: PullAction) -> bool {
    if cancelled {
        a matches PullAction::Kill(p) && says_ended(p, id, true, None)
    } else {
        match seen {
            PullState::Running => a is Wait,
            PullState::Printed(line) => a matches PullAction::Show(l) && l.id == id && l.line@
                == line@,
            PullState::Exited { success, status } => a matches PullAction::Report(p) && says_ended(
                p,
                id,
                false,
                if success {
                    None
                } else {
                    Some("ollama pull failed ("@ + status@ + ")"@)
                },
            ),
            PullState::Failed(e) => a matches PullAction::Report(p) && says_ended(
                p,
                id,
                false,
                Some(e@),
            ),
        }
    }
}

/// Decides what follows a look at the process. Cancelling comes first.
pub fn pull_step(id: u64, cancelled: bool, seen: &PullState) -> (a: PullAction)
    ensures
        is_pull_step(id, cancelled, *seen, a),
{
    if cancelled {
        return PullAction::Kill(ended(id, true, None));
    }
    match seen {
        PullState::Running => PullAction::Wait,
        PullState::Printed(line) => PullAction::Show(PullLine { id, line: line.clone() }),
        PullState::Exited { success, status } => {
            if *success {
                PullAction::Report(ended(id, false, None))
            } else {
                let mut s = String::from_str("ollama pull failed (");
                s.append(status.as_str());
                s.append(")");
                PullAction::Report(ended(id, false, Some(s)))
            }
        },
        PullState::Failed(e) => PullAction::Report(ended(id, false, Some(e.clone()))),
    }
}

// ---------------------------------------------------------------------------
// Laws
// ---------------------------------------------------------------------------

/// A download that was cancelled and is started again can be cancelled again.
pub proof fn law_restarted_download_can_be_cancelled(
    before: DownloadState,
    running: DownloadState,
    after: DownloadState,
    id: u64,
)
    requires
        tokens_in_order(before),
        forall|i: int|
            0 <= i < before.entries@.len() && (#[trigger] before.entries@[i]).id == id
                ==> before.entries@[i].cancelled,
        is_armed(before, running, id),
        is_cancelled_by(running, after, id),
    ensures
        is_stopped(after, before.next),
{
    let b = before.entries@;
    let r = running.entries@;
    let n = r.len() - 1;
    assert forall|k: int| 0 <= k < n implies (#[trigger] r[k]).id != id && r[k].token
        < before.next by {
        assert(r[k] == live(b)[k]);
        let i = lemma_live_from(b, k);
        assert(b[i].token < before.next);
    }
    assert(r[n].id == id && r[n].token == before.next);
    assert(is_first_with(r, id, n));
    let j = choose|j: int|
        is_first_with(r, id, j) && after.entries@ == r.update(
            j,
            DownloadEntry { cancelled: true, ..r[j] },
        );
    assert(j == n);
    assert forall|i: int|
        0 <= i < after.entries@.len() && (#[trigger] after.entries@[i]).token
            == before.next implies after.entries@[i].cancelled by {
        if i < n {
            assert(r[i].token < before.next);
        }
    }
}

/// A name that neither begins nor ends with a blank or a dot keeps its characters,
/// the first 120 of them; those that a path or Windows gives a meaning to, and
/// control characters, become underscores.
pub proof fn law_names_keep_their_characters(s: Seq<char>)
    requires
        s.len() > 0,
        !is_space(s[0]) && s[0] != '.',
        !is_space(s.last()) && s.last() != '.',
    ensures
        safe_name(s).len() == (if s.len() <= 120 {
            s.len()
        } else {
            120
        }),
        forall|i: int|
            0 <= i < safe_name(s).len() ==> #[trigger] safe_name(s)[i] == (if is_control(s[i])
                || s[i] == '/' || s[i] == '\\' || s[i] == ':' || s[i] == '*' || s[i] == '?' || s[i]
                == '"' || s[i] == '<' || s[i] == '>' || s[i] == '|' {
                '_'
            } else {
                s[i]
            }),
{
    let c = s.map_values(|c: char| safe_char(c));
    let none = Seq::<char>::empty();
    assert(c[0] == safe_char(s[0]));
    assert(c.last() == safe_char(s.last()));
    law_trimming_takes_white_space(none, c, none);
    assert(none + c + none =~= c);
    assert(trim(c) == c);
    let dot = seq!['.'];
    assert forall|x: char| x != '.' implies !(#[trigger] one_of(dot)(x)) by {
        assert(forall|i: int| 0 <= i < dot.len() ==> dot[i] == '.');
    }
    assert(!one_of(dot)(c[0]));
    assert(!one_of(dot)(c.last()));
    assert(bare_name(s) == c);
}

/// A repository is kept below a folder of its owner: each part of its name is a
/// folder, and the file's name is the last segment, whatever slashes it holds.
pub proof fn law_repositories_have_their_own_folders(
    segments: Seq<String>,
    owner: Seq<char>,
    name: Seq<char>,
    file: Seq<char>,
)
    requires
        are_hub_segments(segments, owner.push('/') + name, file),
        forall|i: int| 0 <= i < owner.len() ==> #[trigger] owner[i] != '/',
        forall|i: int| 0 <= i < name.len() ==> #[trigger] name[i] != '/',
    ensures
        segments.len() == 3,
        segments[0]@ == safe_name(owner),
        segments[1]@ == safe_name(name),
        segments[2]@ == safe_name(file),
{
    let slash = seq!['/'];
    assert(slash[0] == '/');
    assert(forall|c: char| slash.contains(c) ==> c == '/');
    assert(slash.contains('/'));
    law_pieces_of_a_joined_text(owner, '/', name, slash);
    law_text_without_a_mark_is_one_piece(owner, slash);
    law_text_without_a_mark_is_one_piece(name, slash);
    let parts = split(owner.push('/') + name, slash);
    assert(parts =~= seq![owner, name]);
    let all = safe_names(parts).push(safe_name(file));
    assert(texts(segments) == all);
    assert(all.len() == 3);
    assert(texts(segments)[0] == segments[0]@);
    assert(texts(segments)[1] == segments[1]@);
    assert(texts(segments)[2] == segments[2]@);
}

/// A label that ends a file's name is its quant, in upper case, whatever stands
/// before it: `Q` or `IQ` and a digit, or one of the float types.
pub proof fn law_label_at_the_end_is_the_quant(front: Seq<char>, mark: char, label: Seq<char>)
    requires
        mark == '-' || mark == '.',
        forall|i: int| 0 <= i < label.len() ==> #[trigger] label[i] != '-' && label[i] != '.',
        ({
            let u = upper(label);
            ||| u.len() > 1 && u[0] == 'Q' && is_digit(u[1])
            ||| u.len() > 2 && u[0] == 'I' && u[1] == 'Q' && is_digit(u[2])
            ||| u =~= seq!['F', '1', '6']
            ||| u =~= seq!['F', '3', '2']
            ||| u =~= seq!['B', 'F', '1', '6']
        }),
    ensures
        quant_in(front.push(mark) + label + ".gguf"@) == Some(upper(label)),
{
    let parts = split(front, seq!['-', '.']);
    lemma_label_behind(front, mark, label);
    lemma_quant_part(upper(label));
    assert(parts.push(label)[parts.len() as int] == label);
}

/// A file's name is cut before its last label.
proof fn lemma_label_behind(front: Seq<char>, mark: char, label: Seq<char>)
    requires
        mark == '-' || mark == '.',
        forall|i: int| 0 <= i < label.len() ==> #[trigger] label[i] != '-' && label[i] != '.',
    ensures
        split(stem_of(front.push(mark) + label + ".gguf"@), seq!['-', '.']) == split(
            front,
            seq!['-', '.'],
        ).push(label),
        stem_of(front + ".gguf"@) == front,
{
    let set = seq!['-', '.'];
    let bare = front.push(mark) + label;
    lemma_stem(bare);
    lemma_stem(front);
    assert(set[0] == '-' && set[1] == '.');
    assert(set.contains('-') && set.contains('.'));
    assert(forall|c: char| set.contains(c) ==> c == '-' || c == '.');
    law_pieces_of_a_joined_text(front, mark, label, set);
    law_text_without_a_mark_is_one_piece(label, set);
    assert(split(bare, set) =~= split(front, set).push(label));
}

/// A name loses its `.gguf`.
proof fn lemma_stem(bare: Seq<char>)
    ensures
        stem_of(bare + ".gguf"@) == bare,
{
    let name = bare + ".gguf"@;
    let n = ".gguf"@.len() as int;
    assert(name.subrange(name.len() - n, name.len() as int) =~= ".gguf"@);
    assert(name.take(name.len() - n) =~= bare);
}

/// What is a quant label.
proof fn lemma_quant_part(u: Seq<char>)
    ensures
        is_quant_part(u) <==> {
            ||| u.len() > 1 && u[0] == 'Q' && is_digit(u[1])
            ||| u.len() > 2 && u[0] == 'I' && u[1] == 'Q' && is_digit(u[2])
            ||| u =~= seq!['F', '1', '6']
            ||| u =~= seq!['F', '3', '2']
            ||| u =~= seq!['B', 'F', '1', '6']
        },
{
    reveal_strlit("Q");
    reveal_strlit("IQ");
    reveal_strlit("F16");
    reveal_strlit("F32");
    reveal_strlit("BF16");
    assert("F16"@ =~= seq!['F', '1', '6']);
    assert("F32"@ =~= seq!['F', '3', '2']);
    assert("BF16"@ =~= seq!['B', 'F', '1', '6']);
    if u.len() > 0 {
        assert(u.subrange(0, 1)[0] == u[0]);
        if u[0] == 'Q' {
            assert(u.subrange(0, 1) =~= "Q"@);
        }
    }
    if u.len() > 1 {
        assert(u.subrange(0, 2)[0] == u[0] && u.subrange(0, 2)[1] == u[1]);
        if u[0] == 'I' && u[1] == 'Q' {
            assert(u.subrange(0, 2) =~= "IQ"@);
        }
    }
}

/// A part behind the label that is none itself changes nothing, nor does one whose
/// `Q` is followed by no digit.
pub proof fn law_other_parts_are_no_quant(front: Seq<char>, mark: char, part: Seq<char>)
    requires
        mark == '-' || mark == '.',
        forall|i: int| 0 <= i < part.len() ==> #[trigger] part[i] != '-' && part[i] != '.',
        ({
            let u = upper(part);
            &&& u.len() > 1 && u[0] == 'Q' ==> !is_digit(u[1])
            &&& u.len() > 2 && u[0] == 'I' && u[1] == 'Q' ==> !is_digit(u[2])
            &&& u.len() > 0 ==> u[0] != 'F' && u[0] != 'B'
        }),
    ensures
        quant_in(front.push(mark) + part + ".gguf"@) == quant_in(front + ".gguf"@),
{
    let parts = split(front, seq!['-', '.']);
    lemma_label_behind(front, mark, part);
    lemma_quant_part(upper(part));
    assert(parts.push(part)[parts.len() as int] == part);
    lemma_last_quant_of_a_front(parts, part, parts.len() as int);
}

proof fn lemma_last_quant_of_a_front(parts: Seq<Seq<char>>, part: Seq<char>, n: int)
    requires
        0 <= n <= parts.len(),
    ensures
        last_quant(parts.push(part), n) == last_quant(parts, n),
    decreases n,
{
    if n > 0 {
        assert(parts.push(part)[n - 1] == parts[n - 1]);
        lemma_last_quant_of_a_front(parts, part, n - 1);
    }
}

/// A query is encoded byte by byte.
pub proof fn law_query_is_encoded_byte_by_byte(a: Seq<u8>, b: Seq<u8>)
    ensures
        encoded(a + b) == encoded(a) + encoded(b),
    decreases b.len(),
{
    if b.len() == 0 {
        assert(a + b =~= a);
        assert(encoded(a) + encoded(b) =~= encoded(a));
    } else {
        assert((a + b).drop_last() =~= a + b.drop_last());
        law_query_is_encoded_byte_by_byte(a, b.drop_last());
        assert(encoded(a + b) =~= encoded(a) + encoded(b));
    }
}

/// Letters, digits and `-_.~` stand for themselves, a plus sign stands for a blank,
/// and any other byte is a percent sign and its two hexadecimal digits.
pub proof fn law_bytes_are_read_back(b: u8)
    ensures
        ({
            let e = encoded(seq![b]);
            let high = e[1] as int;
            let low = e[2] as int;
            if is_alnum(b as char) || b == 0x2d || b == 0x5f || b == 0x2e || b == 0x7e {
                e == seq![b as char]
            } else if b == 0x20 {
                e == seq!['+']
            } else {
                &&& e.len() == 3
                &&& e[0] == '%'
                &&& '0' as int <= high <= '9' as int || 'A' as int <= high <= 'F' as int
                &&& '0' as int <= low <= '9' as int || 'A' as int <= low <= 'F' as int
                &&& b == 16 * (if high <= '9' as int {
                    high - '0' as int
                } else {
                    high - 'A' as int + 10
                }) + (if low <= '9' as int {
                    low - '0' as int
                } else {
                    low - 'A' as int + 10
                })
            }
        }),
{
    let s = seq![b];
    reveal_with_fuel(encoded, 2);
    assert(s.drop_last() =~= Seq::<u8>::empty());
    assert(encoded(s) =~= encoded_byte(b));
    assert(b as int == 16 * (b as int / 16) + b as int % 16);
}

/// The search's results are shown in its order, every one that has a name: its
/// name, how often it was downloaded and liked, 0 where that is not said, and
/// whether it is gated.
pub proof fn law_search_results_are_shown_in_order(
    models: Seq<HfModel>,
    list: Seq<JsonView>,
) -> (from: Seq<int>)
    requires
        are_models(models, list),
    ensures
        from.len() == models.len(),
        forall|k: int, l: int| 0 <= k < l < from.len() ==> #[trigger] from[k] < #[trigger] from[l],
        forall|i: int|
            0 <= i < list.len() && text_of(field(#[trigger] list[i], "modelId"@)) is Some
                ==> from.contains(i),
        forall|k: int|
            0 <= k < from.len() ==> {
                let j = list[#[trigger] from[k]];
                &&& 0 <= from[k] < list.len()
                &&& text_of(field(j, "modelId"@)) == Some(models[k].id@)
                &&& whole_of(field(j, "downloads"@)) is Some ==> whole_of(field(j, "downloads"@))
                    == Some(models[k].downloads)
                &&& whole_of(field(j, "downloads"@)) is None ==> models[k].downloads == 0
                &&& whole_of(field(j, "likes"@)) is Some ==> whole_of(field(j, "likes"@)) == Some(
                    models[k].likes,
                )
                &&& whole_of(field(j, "likes"@)) is None ==> models[k].likes == 0
                &&& field(j, "gated"@) is None ==> !models[k].gated
                &&& field(j, "gated"@) == Some(JsonView::Null) ==> !models[k].gated
                &&& field(j, "gated"@) == Some(JsonView::Bool(models[k].gated)) || !(field(
                    j,
                    "gated"@,
                ) matches Some(JsonView::Bool(_)))
                &&& field(j, "gated"@) matches Some(JsonView::Text(s)) ==> models[k].gated == (
                s.len() > 0)
            },
{
    let from = lemma_models(models, list);
    assert forall|i: int|
        0 <= i < list.len() && text_of(
            field(#[trigger] list[i], "modelId"@),
        ) is Some implies from.contains(i) by {
        assert(names_model(list[i]));
    }
    assert forall|k: int| 0 <= k < from.len() implies 0 <= #[trigger] from[k] < list.len()
        && is_model(models[k], list[from[k]]) by {}
    from
}

/// Which row of a search's result each model is made of.
proof fn lemma_models(models: Seq<HfModel>, list: Seq<JsonView>) -> (from: Seq<int>)
    requires
        are_models(models, list),
    ensures
        from.len() == models.len(),
        forall|k: int, l: int| 0 <= k < l < from.len() ==> #[trigger] from[k] < #[trigger] from[l],
        forall|i: int| 0 <= i < list.len() && #[trigger] names_model(list[i]) ==> from.contains(i),
        forall|k: int|
            0 <= k < from.len() ==> 0 <= #[trigger] from[k] < list.len() && is_model(
                models[k],
                list[from[k]],
            ),
    decreases list.len(),
{
    if list.len() == 0 {
        Seq::empty()
    } else {
        let front = list.drop_last();
        let n = list.len() - 1;
        if names_model(list.last()) {
            let before = lemma_models(models.drop_last(), front);
            let from = before.push(n);
            assert forall|i: int| 0 <= i < list.len() && #[trigger] names_model(
                list[i],
            ) implies from.contains(i) by {
                if i < n {
                    assert(names_model(front[i]));
                    let k = choose|k: int| 0 <= k < before.len() && before[k] == i;
                    assert(from[k] == i);
                } else {
                    assert(from[before.len() as int] == i);
                }
            }
            assert forall|k: int| 0 <= k < from.len() implies 0 <= #[trigger] from[k] < list.len()
                && is_model(models[k], list[from[k]]) by {
                if k < before.len() {
                    assert(before[k] == from[k]);
                    assert(models.drop_last()[k] == models[k]);
                    assert(front[before[k]] == list[from[k]]);
                }
            }
            from
        } else {
            let from = lemma_models(models, front);
            assert forall|i: int| 0 <= i < list.len() && #[trigger] names_model(
                list[i],
            ) implies from.contains(i) by {
                assert(names_model(front[i]));
            }
            assert forall|k: int| 0 <= k < from.len() implies 0 <= #[trigger] from[k] < list.len()
                && is_model(models[k], list[from[k]]) by {
                assert(list[from[k]] == front[from[k]]);
            }
            from
        }
    }
}

/// The files of a repository are shown from the smallest to the largest, every one
/// that is a model, once: its name, its size, 0 where that is not said, and its
/// quant.
pub proof fn law_smallest_files_come_first(
    files: Seq<HfFile>,
    from: Seq<int>,
    list: Seq<JsonView>,
)
    requires
        are_files(files, from, list),
    ensures
        files.len() == from.len(),
        forall|k: int, l: int|
            0 <= k < l < files.len() ==> (#[trigger] files[k]).size_bytes <= (
            #[trigger] files[l]).size_bytes,
        forall|k: int, l: int|
            0 <= k < l < files.len() && (#[trigger] files[k]).size_bytes == (
            #[trigger] files[l]).size_bytes ==> from[k] < from[l],
        forall|k: int|
            0 <= k < from.len() ==> {
                let j = list[#[trigger] from[k]];
                &&& 0 <= from[k] < list.len()
                &&& text_of(field(j, "rfilename"@)) == Some(files[k].name@)
                &&& whole_of(field(j, "size"@)) is Some ==> whole_of(field(j, "size"@)) == Some(
                    files[k].size_bytes,
                )
                &&& whole_of(field(j, "size"@)) is None ==> files[k].size_bytes == 0
                &&& opt_view(files[k].quant) == quant_in(files[k].name@)
            },
        forall|i: int|
            0 <= i < list.len() && (text_of(field(#[trigger] list[i], "rfilename"@)) matches Some(
                name,
            ) && ends(lower(name), ".gguf"@)) ==> from.contains(i),
        forall|k: int|
            0 <= k < files.len() ==> ends(lower((#[trigger] files[k]).name@), ".gguf"@),
{
    let before = smallest_first();
    assert forall|k: int, l: int| 0 <= k < l < files.len() implies (
    #[trigger] files[k]).size_bytes <= (#[trigger] files[l]).size_bytes && (files[k].size_bytes
        == files[l].size_bytes ==> from[k] < from[l]) by {
        assert(placed(files, from, before, k, l));
    }
    assert forall|k: int| 0 <= k < from.len() implies 0 <= #[trigger] from[k] < list.len()
        && is_hub_file(files[k], list[from[k]]) && names_gguf(list[from[k]]) by {
        assert(gguf_files(list)(from[k]));
        assert(shows_file(list)(files[k], from[k]));
    }
    assert forall|k: int| 0 <= k < files.len() implies ends(
        lower((#[trigger] files[k]).name@),
        ".gguf"@,
    ) by {
        assert(names_gguf(list[from[k]]));
        assert(is_hub_file(files[k], list[from[k]]));
    }
    assert forall|i: int|
        0 <= i < list.len() && (text_of(field(#[trigger] list[i], "rfilename"@)) matches Some(name)
            && ends(lower(name), ".gguf"@)) implies from.contains(i) by {
        assert(gguf_files(list)(i));
    }
}

/// A response is taken as it was sent: part of a file is added to the part that is
/// there, and any other response begins anew; the size announced is that of what
/// is still to come.
pub proof fn law_response_is_taken_as_it_was_sent(
    t: Transfer,
    already: u64,
    status: u16,
    content_length: Option<Seq<char>>,
    n: u64,
)
    requires
        is_planned(t, already, status, content_length),
        content_length == Some(decimal(n as nat)),
    ensures
        t.resuming == (status == 206 && already > 0),
        status == 206 ==> t.start == already && t.received == already && t.total == already + n,
        status != 206 ==> t.start == 0 && t.received == 0 && t.total == n,
{
    lemma_decimal_value(n as nat);
    assert(is_digit(decimal(n as nat)[0]));
}

/// A response without a length that can be read announces nothing: what is there is
/// all that is known of.
pub proof fn law_unknown_length_is_zero(
    t: Transfer,
    already: u64,
    status: u16,
    content_length: Option<Seq<char>>,
)
    requires
        is_planned(t, already, status, content_length),
        content_length matches Some(s) ==> s.len() == 0 || !is_digit(s.last()),
    ensures
        t.total == t.start,
        t.received == t.start,
{
    if let Some(s) = content_length {
        let digits = if s.len() > 0 && s[0] == '+' {
            s.skip(1)
        } else {
            s
        };
        if digits.len() > 0 {
            assert(digits.last() == s.last());
            assert(!is_digit(digits[digits.len() - 1]));
        }
    }
}

/// Each event of a transfer is answered by its own action; only bytes that were
/// written change what has arrived, and nothing changes what it began with.
pub proof fn law_transfer_answers_its_events(
    before: Transfer,
    after: Transfer,
    event: TransferEvent,
    a: TransferAction,
)
    requires
        is_step(before, after, event, a),
    ensures
        after.start == before.start,
        after.total == before.total,
        after.resuming == before.resuming,
        event matches TransferEvent::Written(n) ==> a is Continue && after.received
            == before.received + n,
        !(event is Written) ==> after.received == before.received && !(a is Continue),
        a is Keep <==> event is Cancelled,
        event matches TransferEvent::ReadFailed(e) ==> (a matches TransferAction::Fail(s) && s@
            == "read failed: "@ + e@),
        event matches TransferEvent::WriteFailed(e) ==> (a matches TransferAction::Fail(s) && s@
            == "write failed (out of disk?): "@ + e@),
        event is Ended && 0 < before.total && before.received < before.total ==> (
        a matches TransferAction::Fail(s) && s@ == "connection closed early: got "@ + decimal(
            before.received as nat,
        ) + " of "@ + decimal(before.total as nat) + " bytes — retry to resume"@),
        event is Ended && before.total <= before.received ==> a is Publish,
        event is Ended && before.total == 0 ==> a is Publish,
{
}

/// What was there before a transfer began does not count for its speed.
pub proof fn law_speed_counts_what_has_arrived(
    a: Transfer,
    b: Transfer,
    secs: Binary64,
    p: Progress,
    q: Progress,
    id: u64,
    other: u64,
)
    requires
        is_progress(p, id, a, secs),
        is_progress(q, other, b, secs),
        a.received - a.start == b.received - b.start,
    ensures
        p.bytes_per_sec == q.bytes_per_sec,
        p.id == id && q.id == other,
        p.received == a.received && p.total == a.total,
        at_most(Binary64 { bits: MILLISECOND }, secs) ==> p.bytes_per_sec == over(
            of_whole((a.received - a.start) as nat),
            secs,
        ),
        !at_most(Binary64 { bits: MILLISECOND }, secs) ==> p.bytes_per_sec == over(
            of_whole((a.received - a.start) as nat),
            Binary64 { bits: MILLISECOND },
        ),
        !p.done && !p.cancelled && p.path is None && p.error is None,
{
}

/// A download ends in one of three ways: with a file, cancelled, or with an error.
pub proof fn law_download_ends_one_way(p: Progress, id: u64, outcome: Result<Option<String>, String>)
    requires
        is_end(p, id, outcome),
    ensures
        p.id == id,
        p.done,
        outcome matches Ok(Some(path)) ==> p.path == Some(path) && !p.cancelled && p.error is None,
        outcome matches Ok(None) ==> p.path is None && p.cancelled && p.error is None,
        outcome matches Err(e) ==> p.path is None && !p.cancelled && p.error == Some(e),
{
}

/// A pull is passed on as its process goes, under its own id; one that is
/// cancelled is ended whatever its process does.
pub proof fn law_pull_goes_as_its_process_does(
    id: u64,
    cancelled: bool,
    seen: PullState,
    a: PullAction,
)
    requires
        is_pull_step(id, cancelled, seen, a),
    ensures
        a is Kill <==> cancelled,
        a matches PullAction::Kill(p) ==> p.id == id && p.done && p.cancelled && p.error is None,
        a is Wait <==> !cancelled && seen is Running,
        !cancelled && seen is Printed ==> (a matches PullAction::Show(l) && l.id == id && l.line@
            == seen->Printed_0@),
        a matches PullAction::Report(p) ==> p.id == id && p.done && !p.cancelled && p.path is None,
        !cancelled && seen is Failed ==> (a matches PullAction::Report(p) && p.error is Some
            && p.error->Some_0@ == seen->Failed_0@),
        !cancelled && seen is Exited && seen->success ==> (a matches PullAction::Report(p)
            && p.error is None),
        !cancelled && seen is Exited && !seen->success ==> (a matches PullAction::Report(p)
            && p.error is Some && p.error->Some_0@ == "ollama pull failed ("@ + seen->status@
            + ")"@),
{
    if let PullAction::Report(p) = a {
        assert(opt_view(p.error) is Some <==> p.error is Some);
    }
    if let PullAction::Kill(p) = a {
        assert(opt_view(p.error) is Some <==> p.error is Some);
    }
}

/// A direct link names the file behind its last slash, without its query.
pub proof fn law_link_names_the_last_part(folder: Seq<char>, name: Seq<char>, query: Seq<char>)
    requires
        forall|i: int| 0 <= i < folder.len() ==> #[trigger] folder[i] != '?',
        forall|i: int| 0 <= i < name.len() ==> #[trigger] name[i] != '?' && name[i] != '/',
    ensures
        link_file(folder.push('/') + name) == name,
        link_file(folder.push('/') + name + "?"@ + query) == name,
{
    let path = folder.push('/') + name;
    let slash = seq!['/'];
    let url = path + "?"@ + query;
    reveal_strlit("?");
    assert(forall|i: int| 0 <= i < path.len() ==> #[trigger] path[i] != '?');
    assert forall|i: int| 0 <= i && i + 1 <= path.len() implies !#[trigger] occurs_at(
        path,
        "?"@,
        i,
    ) by {
        assert(path.subrange(i, i + 1)[0] == path[i]);
    }
    assert(!occurs(path, "?"@));
    assert(head_of(path, "?"@) == path);
    assert(url.subrange(path.len() as int, path.len() as int + 1) =~= "?"@);
    assert forall|i: int| 0 <= i < path.len() implies !#[trigger] occurs_at(url, "?"@, i) by {
        assert(url.subrange(i, i + 1)[0] == path[i]);
    }
    assert(first_at(url, "?"@, path.len() as int));
    law_text_is_cut_at_the_first(url, "?"@, path.len() as int);
    assert(url.take(path.len() as int) =~= path);
    assert(slash[0] == '/');
    assert(slash.contains('/'));
    assert(forall|c: char| slash.contains(c) ==> c == '/');
    law_pieces_of_a_joined_text(folder, '/', name, slash);
    law_text_without_a_mark_is_one_piece(name, slash);
    assert(split(path, slash).last() == name);
}

/// A token authorizes whatever blanks stand around it, and a blank one is none.
pub proof fn law_token_is_sent_bare(before: Seq<char>, token: Seq<char>, after: Seq<char>)
    requires
        forall|i: int| 0 <= i < before.len() ==> is_space(#[trigger] before[i]),
        forall|i: int| 0 <= i < after.len() ==> is_space(#[trigger] after[i]),
        token.len() > 0,
        !is_space(token[0]),
        !is_space(token.last()),
    ensures
        authorization(Some(before + token + after)) == Some("Bearer "@ + token),
        authorization(None) is None,
        authorization(Some(Seq::empty())) is None,
{
    law_trimming_takes_white_space(before, token, after);
}

/// A transfer that is resumed asks for what is behind the bytes that are there, and
/// one that begins anew asks for no range.
pub proof fn law_range_begins_where_the_file_ends(already: u64, s: Seq<char>)
    ensures
        range_from(already) is None <==> already == 0,
        range_from(already) == Some(s) ==> s == "bytes="@ + decimal(already as nat) + "-"@,
{
}

/// Different files of a repository are at different addresses, all below the
/// repository's.
pub proof fn law_files_have_their_own_addresses(repo: Seq<char>, a: Seq<char>, b: Seq<char>)
    ensures
        file_link(repo, a) == file_link(repo, b) ==> a == b,
        file_link(repo, a) == "https://huggingface.co/"@ + repo + "/resolve/main/"@ + a,
        files_link(a) == files_link(b) ==> a == b,
        files_link(a) == "https://huggingface.co/api/models/"@ + a + "?blobs=true"@,
        search_link(a) == "https://huggingface.co/api/models?search="@ + encoded(encode_utf8(a))
            + "&filter=gguf&sort=downloads&direction=-1&limit=30"@,
{
    let base = "https://huggingface.co/"@ + repo + "/resolve/main/"@;
    assert((base + a).skip(base.len() as int) =~= a);
    assert((base + b).skip(base.len() as int) =~= b);
    let list = "https://huggingface.co/api/models/"@;
    let end = "?blobs=true"@;
    let x = files_link(a);
    let y = files_link(b);
    assert(x.subrange(list.len() as int, x.len() - end.len()) =~= a);
    assert(y.subrange(list.len() as int, y.len() - end.len()) =~= b);
}

/// A listing that was refused asks for a token, and any other failure is passed on;
/// both name the repository.
pub proof fn law_failed_listing_names_the_repository(repo: Seq<char>, error: Seq<char>)
    ensures
        occurs(error, "401"@) || occurs(error, "403"@) ==> listing_message(repo, error) == repo
            + " is gated — add a Hugging Face token in settings"@,
        !occurs(error, "401"@) && !occurs(error, "403"@) ==> listing_message(repo, error)
            == "could not read "@ + repo + ": "@ + error,
{
}

/// A link is followed exactly when it is secure and its file is a model, under the
/// name that the file has.
pub proof fn law_link_to_a_model_is_followed(r: Result<String, String>, url: Seq<char>)
    requires
        is_direct_file(r, url),
    ensures
        r is Ok <==> begins(url, "https://"@) && ends(lower(link_file(url)), ".gguf"@),
        r matches Ok(name) ==> name@ == link_file(url),
        r matches Err(e) ==> e@ == (if begins(url, "https://"@) {
            "that URL does not point at a .gguf file"@
        } else {
            "only https:// URLs are accepted"@
        }),
{
}

/// A model is pulled with the first program that is there, under its name without
/// blanks around it; a name with a mark that a shell reads is refused.
pub proof fn law_pull_needs_program_and_name(
    r: Result<(String, String), String>,
    places: Seq<Place>,
    model: Seq<char>,
)
    requires
        is_pull_check(r, places, model),
    ensures
        r matches Ok(p) ==> first_file(places, 0) == Some(p.0@) && p.1@ == trim(model) && p.1@.len()
            > 0,
        r is Ok ==> forall|i: int|
            0 <= i < model.len() ==> #[trigger] model[i] != '&' && model[i] != '|' && model[i] != ';'
                && model[i] != '\n',
        first_file(places, 0) is Some && trim(model).len() > 0 && (forall|i: int|
            0 <= i < model.len() ==> #[trigger] model[i] != '&' && model[i] != '|' && model[i] != ';'
                && model[i] != '\n') ==> r is Ok,
        first_file(places, 0) is None ==> (r matches Err(e) && e@
            == "ollama is not installed or not on PATH"@),
        first_file(places, 0) is Some && r is Err ==> r->Err_0@ == "invalid model name"@,
{
    if r is Ok {
        assert forall|i: int| 0 <= i < model.len() implies #[trigger] model[i] != '&' && model[i]
            != '|' && model[i] != ';' && model[i] != '\n' by {
            assert(!is_shell_mark(model[i]));
        }
    }
    if forall|i: int|
        0 <= i < model.len() ==> #[trigger] model[i] != '&' && model[i] != '|' && model[i] != ';'
            && model[i] != '\n' {
        assert forall|i: int| 0 <= i < model.len() implies !is_shell_mark(#[trigger] model[i]) by {}
    }
}

} // verus!
