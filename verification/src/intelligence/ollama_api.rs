//! Reading the answers of the Ollama server.

use vstd::prelude::*;
use crate::json::{
    json_len_at, json_literal, json_number, json_quote, json_str_at, json_string, json_u64_at,
};
use crate::table::{entries_insert, Table};
use crate::text::{chars_of, push_decimal, push_str, str_trimmed, string_of, text_from_utf8, trim};

verus! {

/// The position of the first line feed from `i` on, or the length.
pub open spec fn newline(buf: Seq<u8>, i: int) -> int
    decreases buf.len() - i,
{
    if i < 0 || i >= buf.len() {
        buf.len() as int
    } else if buf[i] == 10 {
        i
    } else {
        newline(buf, i + 1)
    }
}

/// Takes the first complete line, with its line feed, out of a receive buffer.
/// None, and the buffer as it was, while no line is complete.
pub fn take_line(buf: &mut Vec<u8>) -> (r: Option<Vec<u8>>)
    ensures
        ({
            let e = newline(old(buf)@, 0);
            if e < old(buf)@.len() {
                &&& r is Some
                &&& r->0@ == old(buf)@.subrange(0, e + 1)
                &&& final(buf)@ == old(buf)@.subrange(e + 1, old(buf)@.len() as int)
            } else {
                r is None && final(buf)@ == old(buf)@
            }
        }),
{
    let mut i: usize = 0;
    while i < buf.len()
        invariant
            i <= buf@.len(),
            buf@ == old(buf)@,
            newline(buf@, i as int) == newline(buf@, 0),
        decreases buf@.len() - i,
    {
        if buf[i] == 10 {
            let mut rest = buf.split_off(i + 1);
            let mut line: Vec<u8> = Vec::new();
            line.append(buf);
            buf.append(&mut rest);
            assert(line@ == old(buf)@.subrange(0, i + 1));
            assert(buf@ == old(buf)@.subrange(i + 1, old(buf)@.len() as int));
            return Some(line);
        }
        i = i + 1;
    }
    None
}

/// The JSON pointer of the name of the `i`-th model.
pub open spec fn model_pointer(i: nat) -> Seq<char> {
    "/models/"@ + crate::text::decimal(i) + "/name"@
}

/// The names among the first `n` models of a model list.
pub open spec fn model_names(answer: Seq<char>, n: nat) -> Seq<Seq<char>>
    decreases n,
{
    if n == 0 {
        Seq::empty()
    } else {
        let before = model_names(answer, (n - 1) as nat);
        match crate::json::json_string(answer, model_pointer((n - 1) as nat)) {
            Some(name) => before.push(name),
            None => before,
        }
    }
}

/// The names of the installed models, from the server's answer. An answer that
/// is no model list names none; entries without a name are passed over.
pub fn list_models(answer: &str) -> (r: Vec<String>)
    ensures
        crate::text::views(r@) == (match crate::json::json_length(answer@, "/models"@) {
            Some(n) => model_names(answer@, n as nat),
            None => Seq::empty(),
        }),
{
    let mut out: Vec<String> = Vec::new();
    assert(crate::text::views(out@) == Seq::<Seq<char>>::empty());
    if let Some(n) = json_len_at(answer, "/models") {
        let mut i: usize = 0;
        while i < n
            invariant
                i <= n,
                crate::text::views(out@) == model_names(answer@, i as nat),
            decreases n - i,
        {
            let mut p = chars_of("/models/");
            push_decimal(&mut p, i as u128);
            push_str(&mut p, "/name");
            let pointer = string_of(&p);
            let ghost before = crate::text::views(out@);
            if let Some(name) = json_str_at(answer, pointer.as_str()) {
                out.push(name);
                assert(crate::text::views(out@) == before.push(name@));
            }
            i = i + 1;
        }
    }
    out
}

/// The request to fetch a model.
pub fn pull_request(model: &str) -> (r: String)
    ensures
        r@ == "{\"name\":"@ + json_literal(model@) + ",\"stream\":true}"@,
{
    let mut out = chars_of("{\"name\":");
    push_str(&mut out, &json_quote(model));
    push_str(&mut out, ",\"stream\":true}");
    string_of(&out)
}

/// The request to delete a model.
pub fn delete_request(model: &str) -> (r: String)
    ensures
        r@ == "{\"name\":"@ + json_literal(model@) + "}"@,
{
    let mut out = chars_of("{\"name\":");
    push_str(&mut out, &json_quote(model));
    push_str(&mut out, "}");
    string_of(&out)
}

/// What a progress line says: which layer of the model, how much of it is there,
/// and how much there is in all. None for a line that tells of no progress.
pub open spec fn layer_of(line: Seq<u8>) -> Option<(Seq<char>, u64, u64)> {
    let text = trim(vstd::utf8::decode_utf8(line));
    let completed = json_number(text, "/completed"@);
    let total = json_number(text, "/total"@);
    if vstd::utf8::valid_utf8(line) && completed is Some && total is Some && total->0 > 0 {
        let name = match json_string(text, "/digest"@) {
            Some(d) => d,
            None => Seq::empty(),
        };
        Some(
            (
                name,
                (if completed->0 < total->0 {
                    completed->0
                } else {
                    total->0
                }),
                total->0,
            ),
        )
    } else {
        None
    }
}

/// How far the layers of a model have been fetched.
pub struct PullProgress {
    pub layers: Table<(u64, u64)>,
}

impl PullProgress {
    pub fn new() -> (r: Self)
        ensures
            r.layers.entries().len() == 0,
    {
        PullProgress { layers: Table::new() }
    }

    /// Takes in a line of the answer.
    pub fn note(&mut self, line: Vec<u8>)
        ensures
            final(self).layers.entries() == (match layer_of(line@) {
                Some(l) => entries_insert(old(self).layers.entries(), l.0, (l.1, l.2)),
                None => old(self).layers.entries(),
            }),
    {
        let Some(s) = text_from_utf8(line) else {
            return ;
        };
        let text = str_trimmed(&s);
        if let (Some(completed), Some(total)) = (
            json_u64_at(&text, "/completed"),
            json_u64_at(&text, "/total"),
        ) {
            if total > 0 {
                let name: String = match json_str_at(&text, "/digest") {
                    Some(d) => d,
                    None => String::new(),
                };
                let there: u64 = if completed < total {
                    completed
                } else {
                    total
                };
                self.layers.insert(name, (there, total));
            }
        }
    }
}

/// Every entry of the list that has a name is listed, in its order, and nothing else.
pub proof fn law_named_models_are_listed(answer: Seq<char>, n: nat)
    ensures
        ({
            let name = crate::json::json_string(
                answer,
                "/models/"@ + crate::text::decimal(n) + "/name"@,
            );
            &&& name is Some ==> model_names(answer, n + 1) == model_names(answer, n).push(name->0)
            &&& name is None ==> model_names(answer, n + 1) == model_names(answer, n)
        }),
        model_names(answer, 0).len() == 0,
{
}

/// A line tells how much of a layer is there, which is never more than there is; a
/// line without both numbers tells of no progress.
pub proof fn law_progress_is_told(line: Seq<u8>)
    requires
        vstd::utf8::valid_utf8(line),
    ensures
        ({
            let text = trim(vstd::utf8::decode_utf8(line));
            let completed = json_number(text, "/completed"@);
            let total = json_number(text, "/total"@);
            let l = layer_of(line);
            &&& completed is Some && total is Some && total->0 > 0 ==> {
                &&& l is Some
                &&& (l->0).1 <= (l->0).2
                &&& (l->0).2 == total->0
                &&& completed->0 <= total->0 ==> (l->0).1 == completed->0
                &&& json_string(text, "/digest"@) is Some ==> Some((l->0).0) == json_string(
                    text,
                    "/digest"@,
                )
            }
            &&& completed is None || total is None || total->0 == 0 ==> l is None
        }),
{
}

} // verus!
