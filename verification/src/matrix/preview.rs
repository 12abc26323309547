//! Summaries of rooms: the conversation as text, and what a model is asked.

use vstd::prelude::*;
use crate::calendar::{format_unix_ts, timestamp_text};
use crate::directory::{localpart, localpart_of};
use crate::intelligence::chat::{chunk_of, warning_chunk};
use crate::matrix::content::MessageKind;
use crate::matrix::event::MatrixEvent;
use crate::matrix::history::TimelineItem;
use crate::text::{
    chars_of, concat, lines, lines_of, push_chars, push_str, starts_with, str_starts_with, str_trimmed, string_of, trim,
    views,
};

verus! {

/// How many messages that were read already go along with unread ones.
pub const CONTEXT_SIZE: u32 = 10;

/// How many unread messages are summed up at most.
pub const MAX_UNREAD: u32 = 40;

/// How many messages are summed up in a room without unread ones.
pub const RECENT_MESSAGES: u32 = 20;

/// The lines from `i` on, with line feeds between them.
pub open spec fn joined(v: Seq<Seq<char>>, i: int, n: int) -> Seq<char>
    decreases n - i,
{
    if i >= n {
        Seq::empty()
    } else if i == n - 1 {
        v[i]
    } else {
        v[i] + "\n"@ + joined(v, i + 1, n)
    }
}

fn join_lines(v: &Vec<String>, from: usize, to: usize) -> (r: Vec<char>)
    requires
        from <= to <= v@.len(),
    ensures
        r@ == joined(views(v@), from as int, to as int),
{
    let ghost all = views(v@);
    let mut out: Vec<char> = Vec::new();
    let mut i: usize = from;
    assert(out@ + joined(all, from as int, to as int) =~= joined(all, from as int, to as int));
    while i < to
        invariant
            from <= i <= to <= v@.len(),
            all == views(v@),
            joined(all, from as int, to as int) == out@ + joined(all, i as int, to as int),
        decreases to - i,
    {
        let ghost before = out@;
        assert(all[i as int] == v@[i as int]@);
        push_str(&mut out, &v[i]);
        if i + 1 < to {
            push_str(&mut out, "\n");
            assert(before + (all[i as int] + "\n"@ + joined(all, i + 1, to as int)) =~= out@ + joined(
                all,
                i + 1,
                to as int,
            ));
        } else {
            assert(before + all[i as int] =~= out@ + joined(all, i + 1, to as int));
        }
        i = i + 1;
    }
    assert(out@ + joined(all, to as int, to as int) =~= out@);
    out
}

/// The first line from `i` on that is no quote.
pub open spec fn behind_quote(v: Seq<Seq<char>>, i: int) -> int
    decreases v.len() - i,
{
    if i >= v.len() || !starts_with(v[i], "> "@) {
        i
    } else {
        behind_quote(v, i + 1)
    }
}

/// A message without the quote that a reply begins with, and without the blank
/// line behind the quote. Nothing, where only white space is left.
pub open spec fn without_quote(body: Seq<char>) -> Seq<char> {
    let v = lines(body);
    let q = behind_quote(v, 0);
    let b = if q < v.len() && v[q].len() == 0 {
        q + 1
    } else {
        q
    };
    let rest = joined(v, b, v.len() as int);
    if trim(rest).len() == 0 {
        Seq::empty()
    } else {
        rest
    }
}

/// Strips the quote that a reply begins with, which is noise for a summary.
pub fn strip_reply_fallback_simple(body: &str) -> (r: String)
    ensures
        r@ == without_quote(body@),
{
    let v = lines_of(body);
    let ghost all = views(v@);
    let mut b: usize = 0;
    while b < v.len() && str_starts_with(&v[b], "> ")
        invariant
            b <= v@.len(),
            all == views(v@),
            behind_quote(all, 0) == behind_quote(all, b as int),
        decreases v@.len() - b,
    {
        assert(all[b as int] == v@[b as int]@);
        b = b + 1;
    }
    if b < v.len() {
        assert(all[b as int] == v@[b as int]@);
        if v[b].as_str().is_empty() {
            b = b + 1;
        }
    }
    let rest = string_of(&join_lines(&v, b, v.len()));
    if str_trimmed(&rest).as_str().is_empty() {
        String::new()
    } else {
        rest
    }
}

/// The line that stands for an event in a conversation: only plain text messages
/// are shown.
pub open spec fn preview_line(item: TimelineItem) -> Option<Seq<char>> {
    match item {
        TimelineItem::Message { sender, timestamp, content, .. } => {
            let body = without_quote(content.body@);
            if content.kind != MessageKind::Text || body.len() == 0 {
                None
            } else {
                Some(
                    "["@ + timestamp_text(timestamp as int) + "] "@ + localpart(sender@) + ": "@
                        + body,
                )
            }
        },
        _ => None,
    }
}

/// The lines of the last `n` events of a batch that stands newest first, oldest
/// first.
pub open spec fn conversation(items: Seq<TimelineItem>, n: int) -> Seq<Seq<char>>
    decreases n,
{
    if n <= 0 {
        Seq::empty()
    } else {
        let rest = conversation(items, n - 1);
        match preview_line(items[items.len() - n]) {
            Some(l) => rest.push(l),
            None => rest,
        }
    }
}

fn line_for(item: &TimelineItem) -> (r: Option<String>)
    ensures
        crate::json::text_of(r) == preview_line(*item),
{
    if let TimelineItem::Message { sender, timestamp, content, .. } = item {
        if let MessageKind::Text = content.kind {
            let body = strip_reply_fallback_simple(&content.body);
            if body.as_str().is_empty() {
                return None;
            }
            let mut out = chars_of("[");
            push_str(&mut out, &format_unix_ts(*timestamp));
            push_str(&mut out, "] ");
            push_str(&mut out, &localpart_of(sender));
            push_str(&mut out, ": ");
            push_str(&mut out, &body);
            return Some(string_of(&out));
        }
    }
    None
}

/// A batch of events, which stands newest first, as the lines of a conversation,
/// oldest first.
pub fn preview_lines(items: &Vec<TimelineItem>) -> (r: Vec<String>)
    ensures
        views(r@) == conversation(items@, items@.len() as int),
{
    let mut out: Vec<String> = Vec::new();
    let mut n: usize = 0;
    assert(views(out@) =~= Seq::<Seq<char>>::empty());
    while n < items.len()
        invariant
            n <= items@.len(),
            views(out@) == conversation(items@, n as int),
        decreases items@.len() - n,
    {
        let ghost before = views(out@);
        if let Some(line) = line_for(&items[items.len() - (n + 1)]) {
            out.push(line);
            assert(views(out@) =~= before.push(line@));
        }
        n = n + 1;
    }
    out
}

/// How many unread messages are summed up.
pub open spec fn unread_window(unread: u32) -> u32 {
    if unread < MAX_UNREAD {
        unread
    } else {
        MAX_UNREAD
    }
}

/// How many messages are fetched for a summary: the unread ones and some before
/// them, or the most recent ones.
pub fn fetch_limit(unread: u32) -> (r: u32)
    ensures
        r == (if unread > 0 {
            unread_window(unread) + CONTEXT_SIZE
        } else {
            RECENT_MESSAGES as int
        }),
{
    if unread == 0 {
        RECENT_MESSAGES
    } else if unread < MAX_UNREAD {
        unread + CONTEXT_SIZE
    } else {
        MAX_UNREAD + CONTEXT_SIZE
    }
}

/// The user's own instructions, as they are appended to what the model is asked.
pub open spec fn extra_text(extra: Seq<char>) -> Seq<char> {
    if extra.len() == 0 {
        Seq::empty()
    } else {
        "\n\nAdditional instructions: "@ + extra
    }
}

/// What the model is asked: to sum up the unread messages, with those before them
/// as context; or the whole conversation, where nothing is unread or everything
/// is.
pub open spec fn prompt_text(v: Seq<Seq<char>>, unread: u32, extra: Seq<char>) -> Seq<char> {
    let n = v.len() as int;
    if unread > 0 && n > unread_window(unread) {
        let split = n - unread_window(unread);
        "You are a helpful assistant analyzing a Matrix room conversation.\nEach message is prefixed with its exact timestamp in [YYYY-MM-DD HH:MM UTC] format. Use only those timestamps when referring to timing \u{2014} do not guess or infer any dates not present in the conversation.\n\n=== Prior conversation (context \u{2014} already read) ===\n"@
            + joined(v, 0, split) + "\n\n=== New messages (unread) ===\n"@ + joined(v, split, n)
            + "\n\nProvide a concise summary (2-4 bullet points) of the NEW messages above. For each bullet, include who sent the message and what they said or decided. Use the prior context only to explain references \u{2014} do not summarize it separately."@
            + extra_text(extra)
    } else {
        "You are a helpful assistant. Summarize the following Matrix room conversation in 2-4 bullet points. Focus on topics, decisions, and key contributors. Be concise.\nEach message is prefixed with its exact timestamp in [YYYY-MM-DD HH:MM UTC] format. Use only those timestamps when referring to timing \u{2014} do not guess or infer any dates not present in the conversation."@
            + extra_text(extra) + "\n\nConversation:\n"@ + joined(v, 0, n)
    }
}

/// Writes what the model is asked.
pub fn preview_prompt(v: &Vec<String>, unread: u32, extra: &str) -> (r: String)
    ensures
        r@ == prompt_text(views(v@), unread, extra@),
{
    let more: String = if extra.is_empty() {
        String::new()
    } else {
        concat("\n\nAdditional instructions: ", extra)
    };
    assert(more@ =~= extra_text(extra@));
    let window: u32 = if unread < MAX_UNREAD {
        unread
    } else {
        MAX_UNREAD
    };
    let n: usize = v.len();
    if unread > 0 && n > window as usize {
        let split: usize = n - window as usize;
        let mut out = chars_of(
            "You are a helpful assistant analyzing a Matrix room conversation.\nEach message is prefixed with its exact timestamp in [YYYY-MM-DD HH:MM UTC] format. Use only those timestamps when referring to timing \u{2014} do not guess or infer any dates not present in the conversation.\n\n=== Prior conversation (context \u{2014} already read) ===\n",
        );
        push_chars(&mut out, &join_lines(v, 0, split));
        push_str(&mut out, "\n\n=== New messages (unread) ===\n");
        push_chars(&mut out, &join_lines(v, split, n));
        push_str(
            &mut out,
            "\n\nProvide a concise summary (2-4 bullet points) of the NEW messages above. For each bullet, include who sent the message and what they said or decided. Use the prior context only to explain references \u{2014} do not summarize it separately.",
        );
        push_str(&mut out, &more);
        string_of(&out)
    } else {
        let mut out = chars_of(
            "You are a helpful assistant. Summarize the following Matrix room conversation in 2-4 bullet points. Focus on topics, decisions, and key contributors. Be concise.\nEach message is prefixed with its exact timestamp in [YYYY-MM-DD HH:MM UTC] format. Use only those timestamps when referring to timing \u{2014} do not guess or infer any dates not present in the conversation.",
        );
        push_str(&mut out, &more);
        push_str(&mut out, "\n\nConversation:\n");
        push_chars(&mut out, &join_lines(v, 0, n));
        string_of(&out)
    }
}

/// What becomes of a request for a summary.
#[derive(Debug)]
pub enum PreviewStep {
    /// Nothing is asked of the model; this is reported.
    Report { event: MatrixEvent },
    /// The model is asked, and its answer goes by this context.
    Ask { context: String, prompt: String },
}

/// Decides what becomes of a request for a summary, once the messages are there.
pub fn plan_preview(
    room_id: &str,
    items: &Vec<TimelineItem>,
    unread: u32,
    endpoint: &str,
    model: &str,
    extra: &str,
) -> (r: PreviewStep)
    ensures
        ({
            let context = "preview:"@ + room_id@;
            let v = conversation(items@, items@.len() as int);
            if endpoint@.len() == 0 || model@.len() == 0 {
                r matches PreviewStep::Report { event } && chunk_of(event) == Some(
                    (context, Seq::<char>::empty(), true),
                )
            } else if v.len() == 0 {
                r matches PreviewStep::Report { event } && chunk_of(event) == Some(
                    (
                        context,
                        "\u{26a0} "@
                            + "No readable messages found (room may be encrypted without keys)"@,
                        true,
                    ),
                )
            } else {
                r matches PreviewStep::Ask { context: c, prompt } && c@ == context && prompt@
                    == prompt_text(v, unread, extra@)
            }
        }),
{
    let context = concat("preview:", room_id);
    let v = preview_lines(items);
    if endpoint.is_empty() || model.is_empty() {
        return PreviewStep::Report {
            event: MatrixEvent::OllamaChunk { context, chunk: String::new(), done: true },
        };
    }
    assert(views(v@).len() == v@.len());
    if v.len() == 0 {
        return PreviewStep::Report {
            event: warning_chunk(
                &context,
                "No readable messages found (room may be encrypted without keys)",
            ),
        };
    }
    let prompt = preview_prompt(&v, unread, extra);
    PreviewStep::Ask { context, prompt }
}

/// What is reported when the messages for a summary could not be fetched.
pub fn preview_failed(room_id: &str) -> (r: MatrixEvent)
    ensures
        r matches MatrixEvent::RoomPreview { room_id: id, messages_text, is_unread } && id@
            == room_id@ && messages_text@.len() == 0 && !is_unread,
{
    MatrixEvent::RoomPreview {
        room_id: room_id.to_owned(),
        messages_text: String::new(),
        is_unread: false,
    }
}

// ---- laws ---------------------------------------------------------------------

proof fn lemma_conversation_has(items: Seq<TimelineItem>, i: int, n: int)
    requires
        0 <= i < items.len(),
        items.len() - i <= n <= items.len(),
        preview_line(items[i]) is Some,
    ensures
        ({
            let p = conversation(items, items.len() - i - 1).len() as int;
            &&& 0 <= p < conversation(items, n).len()
            &&& conversation(items, n)[p] == preview_line(items[i])->0
        }),
    decreases n,
{
    if items.len() - i < n {
        lemma_conversation_has(items, i, n - 1);
    }
}

/// A conversation reads from the oldest message to the newest: of two events of a
/// batch that stands newest first, the line of the later one comes behind.
pub proof fn law_conversation_is_oldest_first(items: Seq<TimelineItem>, i: int, j: int)
    requires
        0 <= i < j < items.len(),
        preview_line(items[i]) is Some,
        preview_line(items[j]) is Some,
    ensures
        ({
            let v = conversation(items, items.len() as int);
            exists|p: int, q: int| {
                &&& 0 <= p < q < v.len()
                &&& #[trigger] v[p] == preview_line(items[j])->0
                &&& #[trigger] v[q] == preview_line(items[i])->0
            }
        }),
{
    let n = items.len() as int;
    let v = conversation(items, n);
    lemma_conversation_has(items, i, n);
    lemma_conversation_has(items, j, n);
    lemma_conversation_has(items, j, n - i - 1);
    let p = conversation(items, n - j - 1).len() as int;
    let q = conversation(items, n - i - 1).len() as int;
    assert(v[p] == preview_line(items[j])->0);
    assert(v[q] == preview_line(items[i])->0);
}

/// A conversation holds nothing but what was said: each of its lines stands for an
/// event, and there is one for every event that has one.
pub proof fn law_conversation_is_complete(items: Seq<TimelineItem>, i: int)
    requires
        0 <= i < items.len(),
    ensures
        conversation(items, items.len() as int).len() <= items.len(),
        preview_line(items[i]) matches Some(l) ==> conversation(items, items.len() as int).contains(
            l,
        ),
        forall|k: int|
            0 <= k < conversation(items, items.len() as int).len() ==> exists|e: int|
                0 <= e < items.len() && preview_line(#[trigger] items[e]) == Some(
                    #[trigger] conversation(items, items.len() as int)[k],
                ),
{
    let n = items.len() as int;
    lemma_conversation_from(items, n);
    if preview_line(items[i]) is Some {
        lemma_conversation_has(items, i, n);
    }
}

proof fn lemma_conversation_from(items: Seq<TimelineItem>, n: int)
    requires
        0 <= n <= items.len(),
    ensures
        conversation(items, n).len() <= n,
        forall|k: int|
            0 <= k < conversation(items, n).len() ==> exists|e: int|
                0 <= e < items.len() && preview_line(#[trigger] items[e]) == Some(
                    #[trigger] conversation(items, n)[k],
                ),
    decreases n,
{
    if n > 0 {
        lemma_conversation_from(items, n - 1);
        let rest = conversation(items, n - 1);
        let all = conversation(items, n);
        assert forall|k: int| 0 <= k < all.len() implies exists|e: int|
            0 <= e < items.len() && preview_line(#[trigger] items[e]) == Some(#[trigger] all[k]) by {
            if k < rest.len() {
                assert(all[k] == rest[k]);
                let e = choose|e: int|
                    0 <= e < items.len() && preview_line(#[trigger] items[e]) == Some(rest[k]);
                assert(preview_line(items[e]) == Some(all[k]));
            } else {
                assert(preview_line(items[items.len() - n]) == Some(all[k]));
            }
        }
    }
}

/// A line of text: not empty, no quote, and not only white space.
pub open spec fn plain_line(body: Seq<char>) -> bool {
    &&& body.len() > 0
    &&& !crate::text::is_space(body[0])
    &&& body[0] != '>'
    &&& forall|i: int| 0 <= i < body.len() ==> (#[trigger] body[i]) != '\n'
}

proof fn lemma_find_none(s: Seq<char>, c: char, i: int)
    requires
        0 <= i <= s.len(),
        forall|j: int| i <= j < s.len() ==> (#[trigger] s[j]) != c,
    ensures
        crate::text::find_char(s, c, i) == s.len(),
    decreases s.len() - i,
{
    if i < s.len() {
        lemma_find_none(s, c, i + 1);
    }
}

proof fn lemma_trim_end_keeps(s: Seq<char>)
    requires
        s.len() > 0,
        !crate::text::is_space(s[0]),
    ensures
        crate::text::trim_end(s).len() > 0,
    decreases s.len(),
{
    if crate::text::is_space(s.last()) {
        assert(s.len() > 1);
        assert(s.drop_last()[0] == s[0]);
        lemma_trim_end_keeps(s.drop_last());
    }
}

proof fn lemma_trim_keeps(s: Seq<char>)
    requires
        s.len() > 0,
        !crate::text::is_space(s[0]),
    ensures
        trim(s).len() > 0,
{
    lemma_trim_end_keeps(s);
}

proof fn lemma_lines_of_one(s: Seq<char>, i: int)
    requires
        0 <= i < s.len(),
        forall|j: int| i <= j < s.len() ==> (#[trigger] s[j]) != '\n',
    ensures
        crate::text::lines_from(s, i) == seq![s.subrange(i, s.len() as int)],
{
    lemma_find_none(s, '\n', i);
}

/// A plain line is kept as it is, and the quote that a reply begins with is left out.
pub proof fn law_quotes_are_left_out(body: Seq<char>, quote: Seq<char>)
    requires
        plain_line(body),
        forall|i: int| 0 <= i < quote.len() ==> (#[trigger] quote[i]) != '\n' && quote[i] != '\r',
    ensures
        without_quote(body) == body,
        without_quote("> "@ + quote + "\n\n"@ + body) == body,
{
    reveal_strlit("> ");
    reveal_strlit("\n\n");
    lemma_trim_keeps(body);
    lemma_lines_of_one(body, 0);
    assert(body.subrange(0, body.len() as int) =~= body);
    let v = lines(body);
    assert(v == seq![body]);
    assert(!starts_with(body, "> "@)) by {
        if starts_with(body, "> "@) {
            assert(body.subrange(0, 2)[0] == '>');
        }
    }
    assert(behind_quote(v, 0) == 0);
    assert(joined(v, 0, 1) == body);
    let s = "> "@ + quote + "\n\n"@ + body;
    let q = (2 + quote.len()) as int;
    assert forall|j: int| 0 <= j < q implies (#[trigger] s[j]) != '\n' by {
        if j >= 2 {
            assert(s[j] == quote[j - 2]);
        }
    }
    assert(s[q] == '\n' && s[q + 1] == '\n');
    lemma_find_at(s, '\n', 0, q);
    lemma_find_at(s, '\n', q + 1, q + 1);
    assert forall|j: int| q + 2 <= j < s.len() implies (#[trigger] s[j]) != '\n' by {
        assert(s[j] == body[j - q - 2]);
    }
    lemma_lines_of_one(s, q + 2);
    let first = "> "@ + quote;
    assert(s.subrange(0, q) =~= first);
    assert(s[q - 1] != '\r') by {
        if quote.len() > 0 {
            assert(s[q - 1] == quote[quote.len() - 1]);
        }
    }
    assert(s.subrange(q + 1, q + 1) =~= Seq::<char>::empty());
    assert(s.subrange(q + 2, s.len() as int) =~= body);
    reveal_with_fuel(crate::text::lines_from, 4);
    let w = lines(s);
    assert(w =~= seq![first, Seq::<char>::empty(), body]);
    assert(starts_with(first, "> "@)) by {
        assert(first.subrange(0, 2) =~= "> "@);
    }
    assert(!starts_with(Seq::<char>::empty(), "> "@));
    assert(behind_quote(w, 1) == 1);
    assert(behind_quote(w, 0) == 1);
    assert(joined(w, 2, 3) == body);
}

proof fn lemma_find_at(s: Seq<char>, c: char, i: int, e: int)
    requires
        0 <= i <= e < s.len(),
        s[e] == c,
        forall|j: int| i <= j < e ==> (#[trigger] s[j]) != c,
    ensures
        crate::text::find_char(s, c, i) == e,
    decreases e - i,
{
    if i < e {
        lemma_find_at(s, c, i + 1, e);
    }
}

/// A plain text message is a line of the conversation: when, who, and what. Messages
/// of other kinds are not.
pub proof fn law_texts_are_lines(item: TimelineItem)
    requires
        item is Message,
        plain_line(item->Message_content.body@),
    ensures
        item->Message_content.kind == MessageKind::Text ==> preview_line(item) == Some(
            "["@ + timestamp_text(item->Message_timestamp as int) + "] "@ + localpart(
                item->Message_sender@,
            ) + ": "@ + item->Message_content.body@,
        ),
        item->Message_content.kind != MessageKind::Text ==> preview_line(item) is None,
{
    law_quotes_are_left_out(item->Message_content.body@, Seq::empty());
}

/// Lines are put together with a line break between two of them, in their order.
pub proof fn law_lines_are_joined(v: Seq<Seq<char>>, i: int, m: int, n: int)
    requires
        0 <= i < m < n <= v.len(),
    ensures
        joined(v, i, n) == joined(v, i, m) + "\n"@ + joined(v, m, n),
        joined(v, i, i + 1) == v[i],
    decreases m - i,
{
    if i + 1 < m {
        law_lines_are_joined(v, i + 1, m, n);
        assert(v[i] + "\n"@ + (joined(v, i + 1, m) + "\n"@ + joined(v, m, n)) =~= (v[i] + "\n"@
            + joined(v, i + 1, m)) + "\n"@ + joined(v, m, n));
    }
}

/// Whether a prompt shows some messages as read and others as unread, with something
/// before and behind them.
pub open spec fn sets_apart(
    p: Seq<char>,
    head: Seq<char>,
    read: Seq<char>,
    unread: Seq<char>,
    tail: Seq<char>,
) -> bool {
    p == head + "=== Prior conversation (context \u{2014} already read) ===\n"@ + read
        + "\n\n=== New messages (unread) ===\n"@ + unread + "\n\n"@ + tail
}

/// The unread messages, and no others, stand under their heading; those before them
/// stand under the heading of what was read already. At most forty count as unread.
pub proof fn law_unread_messages_are_set_apart(
    v: Seq<Seq<char>>,
    unread: u32,
    extra: Seq<char>,
    split: int,
)
    requires
        0 < split < v.len(),
        v.len() - split == unread || (unread > 40 && v.len() - split == 40),
        unread <= 40 || v.len() - split == 40,
    ensures
        exists|head: Seq<char>, tail: Seq<char>| #[trigger]
            sets_apart(
                prompt_text(v, unread, extra),
                head,
                joined(v, 0, split),
                joined(v, split, v.len() as int),
                tail,
            ),
{
    let p = prompt_text(v, unread, extra);
    let start = "You are a helpful assistant analyzing a Matrix room conversation.\nEach message is prefixed with its exact timestamp in [YYYY-MM-DD HH:MM UTC] format. Use only those timestamps when referring to timing \u{2014} do not guess or infer any dates not present in the conversation.\n\n=== Prior conversation (context \u{2014} already read) ===\n"@;
    let mark = "=== Prior conversation (context \u{2014} already read) ===\n"@;
    let ask = "\n\nProvide a concise summary (2-4 bullet points) of the NEW messages above. For each bullet, include who sent the message and what they said or decided. Use the prior context only to explain references \u{2014} do not summarize it separately."@;
    reveal_strlit(
        "You are a helpful assistant analyzing a Matrix room conversation.\nEach message is prefixed with its exact timestamp in [YYYY-MM-DD HH:MM UTC] format. Use only those timestamps when referring to timing \u{2014} do not guess or infer any dates not present in the conversation.\n\n=== Prior conversation (context \u{2014} already read) ===\n",
    );
    reveal_strlit("=== Prior conversation (context \u{2014} already read) ===\n");
    reveal_strlit(
        "\n\nProvide a concise summary (2-4 bullet points) of the NEW messages above. For each bullet, include who sent the message and what they said or decided. Use the prior context only to explain references \u{2014} do not summarize it separately.",
    );
    reveal_strlit("\n\n");
    let head = start.subrange(0, start.len() - mark.len());
    assert(start.subrange(start.len() - mark.len(), start.len() as int) =~= mark);
    assert(start =~= head + mark);
    assert(ask.subrange(0, 2) =~= "\n\n"@);
    let tail = ask.subrange(2, ask.len() as int) + extra_text(extra);
    assert(ask + extra_text(extra) =~= "\n\n"@ + tail);
    let old_part = joined(v, 0, split);
    let new_part = joined(v, split, v.len() as int);
    let mid = "\n\n=== New messages (unread) ===\n"@;
    assert(p == start + old_part + mid + new_part + ask + extra_text(extra));
    assert(p =~= head + mark + old_part + mid + new_part + "\n\n"@ + tail);
    assert(sets_apart(p, head, old_part, new_part, tail));
}

/// Where nothing is unread, the whole conversation is summed up, at the end of what
/// the model is asked; the instructions of the user always go along.
pub proof fn law_whole_conversation_is_asked(v: Seq<Seq<char>>, unread: u32, extra: Seq<char>)
    requires
        unread == 0 || (v.len() <= unread && v.len() <= 40),
    ensures
        ({
            let p = prompt_text(v, unread, extra);
            exists|head: Seq<char>| {
                &&& p == #[trigger] (head + "\n\nConversation:\n"@ + joined(v, 0, v.len() as int))
                &&& extra.len() > 0 ==> crate::text::ends_with(
                    head,
                    "Additional instructions: "@ + extra,
                )
            }
        }),
{
    let p = prompt_text(v, unread, extra);
    let start = "You are a helpful assistant. Summarize the following Matrix room conversation in 2-4 bullet points. Focus on topics, decisions, and key contributors. Be concise.\nEach message is prefixed with its exact timestamp in [YYYY-MM-DD HH:MM UTC] format. Use only those timestamps when referring to timing \u{2014} do not guess or infer any dates not present in the conversation."@;
    let head = start + extra_text(extra);
    assert(p == head + "\n\nConversation:\n"@ + joined(v, 0, v.len() as int));
    if extra.len() > 0 {
        reveal_strlit("\n\nAdditional instructions: ");
        reveal_strlit("Additional instructions: ");
        let e = "Additional instructions: "@ + extra;
        assert(head.subrange(head.len() - e.len(), head.len() as int) =~= e);
    }
}

/// Only texts are lines of the conversation: pictures and other attachments are
/// none, and neither is a text of which nothing is left, or any other event.
pub proof fn law_only_texts_are_lines(item: TimelineItem)
    ensures
        item is Message && item->content.kind != MessageKind::Text ==> preview_line(item) is None,
        item is Message && item->content.body@.len() == 0 ==> preview_line(item) is None,
        !(item is Message) ==> preview_line(item) is None,
{
    if item is Message && item->content.body@.len() == 0 {
        let body = item->content.body@;
        assert(lines(body).len() == 0);
        assert(joined(lines(body), 0, 0) == Seq::<char>::empty());
    }
}

/// A summary is asked of the unread messages, forty at most, and of ten before them;
/// where nothing is unread, of the last twenty.
pub proof fn law_summaries_ask_for_context(unread: u32, limit: u32)
    requires
        call_ensures(fetch_limit, (unread,), limit),
    ensures
        unread == 0 ==> limit == 20,
        0 < unread <= 40 ==> limit == unread + 10,
        unread > 40 ==> limit == 50,
{
}

} // verus!
