//! Talking to a model: the request, and the stream of the answer.

use vstd::prelude::*;
use crate::intelligence::ollama_api::{list_models, model_names, newline, take_line};
use crate::json::{
    json_bool_at, json_flag, json_length, json_literal, json_quote, json_str_at, json_string,
};
use crate::matrix::event::MatrixEvent;
use crate::text::{chars_of, concat, push_str, same, starts_with, str_starts_with, string_of, text_from_utf8, views};

verus! {

/// How long the whole answer may take.
pub const INFERENCE_TIMEOUT_SECS: u64 = 120;

/// A request to the model as JSON. Without a prompt the model is only loaded.
/// The model stays loaded for a quarter of an hour after its last use.
pub open spec fn chat_json(model: Seq<char>, prompt: Option<Seq<char>>, stream: bool) -> Seq<char> {
    "{\"model\":"@ + json_literal(model) + ",\"messages\":["@ + (match prompt {
        Some(p) => "{\"role\":\"user\",\"content\":"@ + json_literal(p) + "}"@,
        None => ""@,
    }) + "],\"stream\":"@ + (if stream {
        "true"@
    } else {
        "false"@
    }) + ",\"keep_alive\":\"15m\"}"@
}

/// Writes a request to the model.
pub fn chat_request(model: &str, prompt: Option<&str>, stream: bool) -> (r: String)
    ensures
        r@ == chat_json(
            model@,
            (match prompt {
                Some(p) => Some(p@),
                None => None,
            }),
            stream,
        ),
{
    let message: String = match prompt {
        Some(p) => concat(
            &concat("{\"role\":\"user\",\"content\":", &json_quote(p)),
            "}",
        ),
        None => "".to_owned(),
    };
    let mut out = chars_of("{\"model\":");
    push_str(&mut out, &json_quote(model));
    push_str(&mut out, ",\"messages\":[");
    push_str(&mut out, &message);
    push_str(&mut out, "],\"stream\":");
    push_str(
        &mut out,
        if stream {
            "true"
        } else {
            "false"
        },
    );
    push_str(&mut out, ",\"keep_alive\":\"15m\"}");
    string_of(&out)
}

/// Whether a name stands for the model: the model itself, or one of its tags.
pub open spec fn names_model(name: Seq<char>, model: Seq<char>) -> bool {
    name == model || starts_with(name, model + ":"@)
}

/// The names of the installed models, by the server's list of models.
pub open spec fn installed(answer: Seq<char>) -> Seq<Seq<char>> {
    match json_length(answer, "/models"@) {
        Some(n) => model_names(answer, n as nat),
        None => Seq::empty(),
    }
}

/// Whether the model is installed, by the server's list of models.
pub fn model_available(answer: &str, model: &str) -> (r: bool)
    ensures
        r == exists|i: int|
            0 <= i < installed(answer@).len() && names_model(
                #[trigger] installed(answer@)[i],
                model@,
            ),
{
    let names = list_models(answer);
    let tagged = concat(model, ":");
    let ghost all = views(names@);
    let mut i: usize = 0;
    while i < names.len()
        invariant
            i <= names@.len(),
            all == views(names@),
            all == installed(answer@),
            tagged@ == model@ + ":"@,
            forall|j: int| 0 <= j < i ==> !names_model(#[trigger] all[j], model@),
        decreases names@.len() - i,
    {
        assert(all[i as int] == names@[i as int]@);
        if same(&names[i], model) || str_starts_with(&names[i], &tagged) {
            assert(names_model(all[i as int], model@));
            return true;
        }
        i = i + 1;
    }
    false
}

pub open spec fn is_blank_byte(b: u8) -> bool {
    b == 32 || b == 9 || b == 10 || b == 12 || b == 13
}

/// A line without the blanks before it.
pub open spec fn left_trimmed(line: Seq<u8>) -> Seq<u8>
    decreases line.len(),
{
    if line.len() > 0 && is_blank_byte(line[0]) {
        left_trimmed(line.skip(1))
    } else {
        line
    }
}

/// A line without the line end.
pub open spec fn without_end(line: Seq<u8>) -> Seq<u8>
    decreases line.len(),
{
    if line.len() > 0 && (line.last() == 13 || line.last() == 10) {
        without_end(line.drop_last())
    } else {
        line
    }
}

/// What one line of the stream brings: a piece of text, and whether it is the
/// last one. None for a line that brings nothing.
pub open spec fn reply_of(line: Seq<u8>) -> Option<(Seq<char>, bool)> {
    let bytes = without_end(left_trimmed(line));
    let text = vstd::utf8::decode_utf8(bytes);
    let piece = match json_string(text, "/message/content"@) {
        Some(s) => s,
        None => Seq::empty(),
    };
    let done = json_flag(text, "/done"@) == Some(true);
    if bytes.len() > 0 && vstd::utf8::valid_utf8(bytes) && (piece.len() > 0 || done) {
        Some((piece, done))
    } else {
        None
    }
}

/// What is read from a buffer: the pieces of text, what is left in the buffer,
/// and whether the last piece was among them.
pub struct Drained {
    pub pieces: Seq<(Seq<char>, bool)>,
    pub rest: Seq<u8>,
    pub done: bool,
}

/// Reads the complete lines of a buffer, up to the last piece of the answer.
pub open spec fn drained(buf: Seq<u8>) -> Drained
    decreases buf.len(),
{
    let e = newline(buf, 0);
    if e >= buf.len() || e < 0 {
        Drained { pieces: Seq::empty(), rest: buf, done: false }
    } else {
        let rest = buf.subrange(e + 1, buf.len() as int);
        match reply_of(buf.subrange(0, e + 1)) {
            Some(reply) => if reply.1 {
                Drained { pieces: seq![reply], rest, done: true }
            } else {
                let more = drained(rest);
                Drained { pieces: seq![reply] + more.pieces, ..more }
            },
            None => drained(rest),
        }
    }
}

fn trim_line(line: &Vec<u8>) -> (r: Vec<u8>)
    ensures
        r@ == without_end(left_trimmed(line@)),
{
    let mut b: usize = 0;
    assert(line@.skip(0) =~= line@);
    while b < line.len() && (line[b] == 32 || line[b] == 9 || line[b] == 10 || line[b] == 12
        || line[b] == 13)
        invariant
            b <= line@.len(),
            left_trimmed(line@) == left_trimmed(line@.skip(b as int)),
        decreases line@.len() - b,
    {
        assert(line@.skip(b as int).skip(1) =~= line@.skip(b + 1));
        b = b + 1;
    }
    let ghost start = line@.skip(b as int);
    let mut e: usize = line.len();
    assert(line@.subrange(b as int, e as int) =~= start);
    while e > b && (line[e - 1] == 13 || line[e - 1] == 10)
        invariant
            b <= e <= line@.len(),
            without_end(start) == without_end(line@.subrange(b as int, e as int)),
        decreases e,
    {
        assert(line@.subrange(b as int, e as int).drop_last() =~= line@.subrange(
            b as int,
            e - 1,
        ));
        e = e - 1;
    }
    let mut out: Vec<u8> = Vec::new();
    let mut i: usize = b;
    while i < e
        invariant
            b <= i <= e <= line@.len(),
            out@ == line@.subrange(b as int, i as int),
        decreases e - i,
    {
        out.push(line[i]);
        i = i + 1;
        assert(out@ =~= line@.subrange(b as int, i as int));
    }
    out
}

fn read_reply(line: &Vec<u8>) -> (r: Option<(String, bool)>)
    ensures
        (match r {
            Some(t) => Some((t.0@, t.1)),
            None => None,
        }) == reply_of(line@),
{
    let bytes = trim_line(line);
    if bytes.len() == 0 {
        return None;
    }
    let Some(text) = text_from_utf8(bytes) else {
        return None;
    };
    let piece: String = match json_str_at(&text, "/message/content") {
        Some(s) => s,
        None => String::new(),
    };
    let done: bool = match json_bool_at(&text, "/done") {
        Some(d) => d,
        None => false,
    };
    if !piece.as_str().is_empty() || done {
        Some((piece, done))
    } else {
        None
    }
}

/// What a chunk event says.
pub open spec fn chunk_of(event: MatrixEvent) -> Option<(Seq<char>, Seq<char>, bool)> {
    match event {
        MatrixEvent::OllamaChunk { context, chunk, done } => Some((context@, chunk@, done)),
        _ => None,
    }
}

/// The events that tell of pieces of text.
pub open spec fn tells(events: Seq<MatrixEvent>, context: Seq<char>, pieces: Seq<(Seq<char>, bool)>) -> bool {
    &&& events.len() == pieces.len()
    &&& forall|i: int|
        0 <= i < events.len() ==> chunk_of(#[trigger] events[i]) == Some(
            (context, pieces[i].0, pieces[i].1),
        )
}

/// The answer of a model while it comes in.
pub struct ChatStream {
    buf: Vec<u8>,
    done: bool,
}

impl ChatStream {
    /// The bytes that are not read yet.
    pub closed spec fn pending(&self) -> Seq<u8> {
        self.buf@
    }

    /// Whether the last piece was read.
    pub closed spec fn is_done(&self) -> bool {
        self.done
    }

    pub fn new() -> (r: Self)
        ensures
            r.pending() == Seq::<u8>::empty(),
            !r.is_done(),
    {
        ChatStream { buf: Vec::new(), done: false }
    }

    /// Whether the last piece was read.
    pub fn done(&self) -> (r: bool)
        ensures
            r == self.is_done(),
    {
        self.done
    }

    /// Takes in more bytes and reports every piece that is complete. Once the
    /// last piece was read nothing more is reported.
    pub fn feed(&mut self, bytes: &Vec<u8>, context: &str) -> (r: Vec<MatrixEvent>)
        ensures
            old(self).is_done() ==> r@.len() == 0 && *final(self) == *old(self),
            !old(self).is_done() ==> {
                let d = drained(old(self).pending() + bytes@);
                &&& tells(r@, context@, d.pieces)
                &&& final(self).pending() == d.rest
                &&& final(self).is_done() == d.done
            },
    {
        let mut out: Vec<MatrixEvent> = Vec::new();
        if self.done {
            return out;
        }
        let mut i: usize = 0;
        let ghost start = self.buf@;
        while i < bytes.len()
            invariant
                i <= bytes@.len(),
                self.buf@ == start + bytes@.take(i as int),
                !self.done,
            decreases bytes@.len() - i,
        {
            self.buf.push(bytes[i]);
            i = i + 1;
            assert(self.buf@ =~= start + bytes@.take(i as int));
        }
        assert(bytes@.take(i as int) =~= bytes@);
        let ghost whole = drained(start + bytes@);
        let ghost mut told: Seq<(Seq<char>, bool)> = Seq::empty();
        loop
            invariant_except_break
                !self.done,
                tells(out@, context@, told),
                whole.pieces == told + drained(self.buf@).pieces,
                whole.rest == drained(self.buf@).rest,
                whole.done == drained(self.buf@).done,
            ensures
                tells(out@, context@, whole.pieces),
                self.buf@ == whole.rest,
                self.done == whole.done,
            decreases self.buf@.len(),
        {
            let ghost before = self.buf@;
            let ghost told0 = told;
            let ghost out0 = out@;
            proof {
                lemma_newline(before, 0);
            }
            let Some(line) = take_line(&mut self.buf) else {
                assert(whole.pieces =~= told);
                break;
            };
            if let Some((piece, done)) = read_reply(&line) {
                let ghost reply = (piece@, done);
                out.push(
                    MatrixEvent::OllamaChunk { context: context.to_owned(), chunk: piece, done },
                );
                proof {
                    told = told.push(reply);
                    assert forall|j: int| 0 <= j < out@.len() implies chunk_of(
                        #[trigger] out@[j],
                    ) == Some((context@, told[j].0, told[j].1)) by {
                        if j < told0.len() {
                            assert(out@[j] == out0[j]);
                        }
                    }
                }
                if done {
                    self.done = true;
                    assert(whole.pieces =~= told);
                    break;
                }
                assert(told0 + (seq![reply] + drained(self.buf@).pieces) =~= told + drained(
                    self.buf@,
                ).pieces);
            }
        }
        out
    }

    /// What is reported when the stream ends: the end of the answer, unless it
    /// was reported already.
    pub fn finish(&self, context: &str) -> (r: Option<MatrixEvent>)
        ensures
            self.is_done() ==> r is None,
            !self.is_done() ==> r is Some && chunk_of(r->0) == Some(
                (context@, Seq::<char>::empty(), true),
            ),
    {
        if self.done {
            None
        } else {
            Some(
                MatrixEvent::OllamaChunk {
                    context: context.to_owned(),
                    chunk: String::new(),
                    done: true,
                },
            )
        }
    }
}

proof fn lemma_newline(buf: Seq<u8>, i: int)
    requires
        0 <= i <= buf.len(),
    ensures
        i <= newline(buf, i) <= buf.len(),
    decreases buf.len() - i,
{
    if i < buf.len() && buf[i] != 10 {
        lemma_newline(buf, i + 1);
    }
}

/// A last chunk that warns of something.
pub fn warning_chunk(context: &str, text: &str) -> (r: MatrixEvent)
    ensures
        chunk_of(r) == Some((context@, "\u{26a0} "@ + text@, true)),
{
    MatrixEvent::OllamaChunk {
        context: context.to_owned(),
        chunk: concat("\u{26a0} ", text),
        done: true,
    }
}

/// What is reported when no server answers.
pub fn not_running(context: &str, endpoint: &str) -> (r: MatrixEvent)
    ensures
        chunk_of(r) == Some((context@, "\u{26a0} "@ + ("Ollama not running at "@ + endpoint@), true)),
{
    warning_chunk(context, &concat("Ollama not running at ", endpoint))
}

/// What is reported when the connection fails.
pub fn connection_failed(context: &str, error: &str) -> (r: MatrixEvent)
    ensures
        chunk_of(r) == Some(
            (context@, "\u{26a0} "@ + ("Ollama connection error: "@ + error@), true),
        ),
{
    warning_chunk(context, &concat("Ollama connection error: ", error))
}

/// What is reported when the server refuses: its own words where it gives any,
/// or else the status.
pub fn refused(context: &str, status: &str, answer: &str) -> (r: MatrixEvent)
    ensures
        chunk_of(r) == Some(
            (
                context@,
                "\u{26a0} "@ + (match json_string(answer@, "/error"@) {
                    Some(e) => e,
                    None => "HTTP "@ + status@,
                }),
                true,
            ),
        ),
{
    let why: String = match json_str_at(answer, "/error") {
        Some(e) => e,
        None => concat("HTTP ", status),
    };
    warning_chunk(context, &why)
}

/// What is reported when the answer takes too long.
pub fn timed_out(context: &str) -> (r: MatrixEvent)
    ensures
        chunk_of(r) == Some(
            (
                context@,
                "\u{26a0} "@
                    + "Inference timed out (model may be loading \u{2014} try again)"@,
                true,
            ),
        ),
{
    warning_chunk(context, "Inference timed out (model may be loading \u{2014} try again)")
}

/// Only the last piece of an answer ends it, and it ends it exactly when the
/// stream is done.
pub proof fn law_answer_ends_once(buf: Seq<u8>)
    ensures
        forall|i: int|
            0 <= i < drained(buf).pieces.len() - 1 ==> !(#[trigger] drained(buf).pieces[i]).1,
        drained(buf).done <==> drained(buf).pieces.len() > 0 && drained(buf).pieces.last().1,
    decreases buf.len(),
{
    let e = newline(buf, 0);
    lemma_newline(buf, 0);
    if e < buf.len() {
        let rest = buf.subrange(e + 1, buf.len() as int);
        law_answer_ends_once(rest);
        match reply_of(buf.subrange(0, e + 1)) {
            Some(reply) => {
                if !reply.1 {
                    let more = drained(rest).pieces;
                    let all = seq![reply] + more;
                    assert forall|i: int| 0 <= i < all.len() - 1 implies !(#[trigger] all[i]).1 by {
                        if i > 0 {
                            assert(all[i] == more[i - 1]);
                        }
                    }
                    if more.len() > 0 {
                        assert(all.last() == more.last());
                    }
                }
            },
            None => {},
        }
    }
}

/// It does not matter how the bytes of an answer are cut into packets.
pub proof fn law_packets_do_not_matter(a: Seq<u8>, b: Seq<u8>)
    requires
        !drained(a).done,
    ensures
        drained(a + b).pieces == drained(a).pieces + drained(drained(a).rest + b).pieces,
        drained(a + b).rest == drained(drained(a).rest + b).rest,
        drained(a + b).done == drained(drained(a).rest + b).done,
    decreases a.len(),
{
    let e = newline(a, 0);
    lemma_newline(a, 0);
    if e < a.len() {
        lemma_newline_prefix(a, b, 0);
        let rest = a.subrange(e + 1, a.len() as int);
        let whole = a + b;
        assert(whole.subrange(0, e + 1) =~= a.subrange(0, e + 1));
        assert(whole.subrange(e + 1, whole.len() as int) =~= rest + b);
        law_packets_do_not_matter(rest, b);
        match reply_of(a.subrange(0, e + 1)) {
            Some(reply) => {
                assert(seq![reply] + (drained(rest).pieces + drained(
                    drained(rest).rest + b,
                ).pieces) =~= (seq![reply] + drained(rest).pieces) + drained(
                    drained(rest).rest + b,
                ).pieces);
            },
            None => {},
        }
    } else {
        assert(drained(a).pieces + drained(drained(a).rest + b).pieces =~= drained(a + b).pieces);
    }
}

proof fn lemma_newline_prefix(a: Seq<u8>, b: Seq<u8>, i: int)
    requires
        0 <= i <= a.len(),
        newline(a, i) < a.len(),
    ensures
        newline(a + b, i) == newline(a, i),
    decreases a.len() - i,
{
    if i < a.len() && a[i] != 10 {
        lemma_newline_prefix(a, b, i + 1);
    }
}

/// A model is named by its own name and by each of its tags, but not by a longer
/// name that only begins the same way.
pub proof fn law_tags_name_their_model(model: Seq<char>, tag: Seq<char>, c: char)
    requires
        c != ':',
    ensures
        names_model(model, model),
        names_model(model + seq![':'] + tag, model),
        !names_model(model + seq![c] + tag, model),
{
    reveal_strlit(":");
    assert(":"@ == seq![':']);
    let p = model + ":"@;
    let tagged = model + seq![':'] + tag;
    assert(tagged.subrange(0, p.len() as int) == p);
    let longer = model + seq![c] + tag;
    assert(longer[model.len() as int] == c);
    if starts_with(longer, p) {
        assert(longer.subrange(0, p.len() as int)[model.len() as int] == ':');
    }
    assert(longer.len() > model.len());
}

/// A line that brings text tells it, and whether it is the last; blanks before the
/// line and its line end do not count. A line with neither text nor an end is passed
/// over.
pub proof fn law_lines_tell_their_text(line: Seq<u8>)
    requires
        line.len() > 0,
        vstd::utf8::valid_utf8(line),
        line[0] != 32 && line[0] != 9 && line[0] != 10 && line[0] != 12 && line[0] != 13,
        line.last() != 10 && line.last() != 13,
    ensures
        ({
            let text = vstd::utf8::decode_utf8(line);
            let piece = json_string(text, "/message/content"@);
            let done = json_flag(text, "/done"@) == Some(true);
            &&& piece is Some && piece->0.len() > 0 ==> reply_of(line) == Some((piece->0, done))
            &&& (piece is None || piece->0.len() == 0) && done ==> reply_of(line) is Some
                && (reply_of(line)->0).1 && (reply_of(line)->0).0.len() == 0
            &&& (piece is None || piece->0.len() == 0) && !done ==> reply_of(line) is None
            &&& reply_of(line + seq![10u8]) == reply_of(line)
            &&& reply_of(line + seq![13u8, 10u8]) == reply_of(line)
            &&& reply_of(seq![32u8] + line) == reply_of(line)
        }),
{
    reveal_with_fuel(left_trimmed, 2);
    reveal_with_fuel(without_end, 3);
    let unix = line + seq![10u8];
    let dos = line + seq![13u8, 10u8];
    assert(unix[0] == line[0] && dos[0] == line[0]);
    assert(unix.last() == 10 && unix.drop_last() == line);
    assert(dos.last() == 10 && dos.drop_last() == line + seq![13u8]);
    assert((line + seq![13u8]).last() == 13 && (line + seq![13u8]).drop_last() == line);
    let blank = seq![32u8] + line;
    assert(blank[0] == 32 && blank.skip(1) == line);
}

/// The text of an answer is told piece by piece, in the order in which it comes.
pub proof fn law_pieces_come_in_order(first: Seq<u8>, rest: Seq<u8>)
    requires
        forall|i: int| 0 <= i < first.len() ==> (#[trigger] first[i]) != 10,
        reply_of(first + seq![10u8]) is Some,
        !(reply_of(first + seq![10u8])->0).1,
    ensures
        drained(first + seq![10u8] + rest).pieces == seq![reply_of(first + seq![10u8])->0] + drained(
            rest,
        ).pieces,
        drained(first + seq![10u8] + rest).rest == drained(rest).rest,
{
    let buf = first + seq![10u8] + rest;
    let n = first.len() as int;
    lemma_newline_at(buf, 0, n);
    assert(buf.subrange(0, n + 1) == first + seq![10u8]);
    assert(buf.subrange(n + 1, buf.len() as int) == rest);
}

proof fn lemma_newline_at(buf: Seq<u8>, i: int, n: int)
    requires
        0 <= i <= n < buf.len(),
        buf[n] == 10,
        forall|j: int| i <= j < n ==> (#[trigger] buf[j]) != 10,
    ensures
        newline(buf, i) == n,
    decreases n - i,
{
    if i < n {
        assert(buf[i] != 10);
        lemma_newline_at(buf, i + 1, n);
    }
}

/// A request names the model and holds the prompt, as one message of the user; a
/// request without a prompt holds no message.
pub proof fn law_requests_hold_the_prompt(model: Seq<char>, prompt: Seq<char>)
    ensures
        chat_json(model, Some(prompt), true) == "{\"model\":"@ + json_literal(model)
            + ",\"messages\":["@ + ("{\"role\":\"user\",\"content\":"@ + json_literal(prompt) + "}"@)
            + "],\"stream\":"@ + "true"@ + ",\"keep_alive\":\"15m\"}"@,
        chat_json(model, None, false) == "{\"model\":"@ + json_literal(model) + ",\"messages\":["@
            + ""@ + "],\"stream\":"@ + "false"@ + ",\"keep_alive\":\"15m\"}"@,
{
}

/// Each piece of an answer is told by an event of its own, under the context that it
/// belongs to.
pub proof fn law_each_piece_is_told(
    events: Seq<MatrixEvent>,
    context: Seq<char>,
    pieces: Seq<(Seq<char>, bool)>,
    i: int,
)
    requires
        tells(events, context, pieces),
        0 <= i < pieces.len(),
    ensures
        events.len() == pieces.len(),
        events[i] is OllamaChunk,
        events[i]->OllamaChunk_context@ == context,
        events[i]->OllamaChunk_chunk@ == pieces[i].0,
        events[i]->OllamaChunk_done == pieces[i].1,
{
    assert(chunk_of(events[i]) == Some((context, pieces[i].0, pieces[i].1)));
}

} // verus!
