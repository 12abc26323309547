//! Messages of a room as a file of JSON lines.

use vstd::prelude::*;
use crate::json::{json_literal, json_quote};
use crate::matrix::event::MatrixEvent;
use crate::matrix::info::{messages_of, MessageInfo, MessageView};
use crate::matrix::room_cache::{RoomCache, RoomTimelineView};
use crate::text::{chars_of, push_str, string_of, views};

verus! {

/// Whether a message is exported: membership changes and empty messages are not.
pub open spec fn is_exported(m: MessageView) -> bool {
    m.body.len() > 0 && !m.is_system_event
}

/// A message as a line of JSON.
pub open spec fn export_line(m: MessageView) -> Seq<char> {
    "{\"sender\":"@ + json_literal(m.sender) + ",\"sender_id\":"@ + json_literal(m.sender_id)
        + ",\"body\":"@ + json_literal(m.body) + "}"@
}

/// The lines of the first `n` messages.
pub open spec fn export_lines(messages: Seq<MessageView>, n: int) -> Seq<Seq<char>>
    decreases n,
{
    if n <= 0 {
        Seq::empty()
    } else if is_exported(messages[n - 1]) {
        export_lines(messages, n - 1).push(export_line(messages[n - 1]))
    } else {
        export_lines(messages, n - 1)
    }
}

/// The messages as lines of JSON.
pub fn export_messages(messages: &Vec<MessageInfo>) -> (r: Vec<String>)
    ensures
        views(r@) == export_lines(messages_of(messages@), messages@.len() as int),
{
    let ghost all = messages_of(messages@);
    let mut out: Vec<String> = Vec::new();
    let mut i: usize = 0;
    assert(views(out@) =~= Seq::<Seq<char>>::empty());
    while i < messages.len()
        invariant
            i <= messages@.len(),
            all == messages_of(messages@),
            views(out@) == export_lines(all, i as int),
        decreases messages@.len() - i,
    {
        let m: &MessageInfo = &messages[i];
        assert(all[i as int] == m@);
        let ghost before = views(out@);
        if !m.body.as_str().is_empty() && !m.is_system_event {
            let mut line = chars_of("{\"sender\":");
            push_str(&mut line, &json_quote(&m.sender));
            push_str(&mut line, ",\"sender_id\":");
            push_str(&mut line, &json_quote(&m.sender_id));
            push_str(&mut line, ",\"body\":");
            push_str(&mut line, &json_quote(&m.body));
            push_str(&mut line, "}");
            assert(line@ =~= export_line(m@));
            out.push(string_of(&line));
            assert(views(out@) =~= before.push(export_line(m@)));
        }
        i = i + 1;
    }
    out
}

/// The messages of a room that are exported: those on disk, or else those in
/// memory. None when neither holds any.
pub open spec fn source_of(
    disk: Option<Seq<MessageView>>,
    memory: Map<Seq<char>, RoomTimelineView>,
    room: Seq<char>,
) -> Option<Seq<MessageView>> {
    match disk {
        Some(messages) => Some(messages),
        None => if memory.contains_key(room) {
            Some(memory[room].messages)
        } else {
            None
        },
    }
}

/// The lines of the export of a room, given the messages that were found on disk,
/// or what is reported when no messages of the room are at hand.
pub fn plan_export(cache: &RoomCache, room_id: &str, disk: Option<Vec<MessageInfo>>) -> (r: Result<
    Vec<String>,
    MatrixEvent,
>)
    ensures
        ({
            let stored = match disk {
                Some(messages) => Some(messages_of(messages@)),
                None => None,
            };
            match source_of(stored, cache.memory(), room_id@) {
                Some(messages) => r matches Ok(lines) && views(lines@) == export_lines(
                    messages,
                    messages.len() as int,
                ),
                None => r matches Err(event) && says_nothing_to_export(event),
            }
        }),
{
    match disk {
        Some(messages) => Ok(export_messages(&messages)),
        None => match cache.get_memory(room_id) {
            Some(timeline) => Ok(export_messages(&timeline.messages)),
            None => Err(nothing_to_export()),
        },
    }
}

/// Whether the event says that there are no messages to export.
pub open spec fn says_nothing_to_export(event: MatrixEvent) -> bool {
    event matches MatrixEvent::MessagesExportFailed { error } && error@
        == "No cached messages for this room \u{2014} open the room first to load them."@
}

/// What is reported when no messages of the room are at hand.
pub fn nothing_to_export() -> (r: MatrixEvent)
    ensures
        says_nothing_to_export(r),
{
    MatrixEvent::MessagesExportFailed {
        error: "No cached messages for this room \u{2014} open the room first to load them.".to_owned(),
    }
}

/// What is reported about an export: how many lines were written, or why the file
/// could not be.
pub fn finish_export(path: String, written: Result<usize, String>) -> (r: MatrixEvent)
    ensures
        match written {
            Ok(n) => r == (MatrixEvent::MessagesExported { path, count: n }),
            Err(why) => r matches MatrixEvent::MessagesExportFailed { error } && error@
                == "Cannot write to "@ + path@ + ": "@ + why@,
        },
{
    match written {
        Ok(count) => MatrixEvent::MessagesExported { path, count },
        Err(why) => {
            let mut error = chars_of("Cannot write to ");
            push_str(&mut error, &path);
            push_str(&mut error, ": ");
            push_str(&mut error, &why);
            MatrixEvent::MessagesExportFailed { error: string_of(&error) }
        },
    }
}

/// What is exported is every message with a text that somebody wrote, oldest
/// first: each gives one line, which names its sender and holds its text.
pub proof fn law_written_messages_are_exported(messages: Seq<MessageView>, n: int, m: MessageView)
    requires
        0 <= n < messages.len(),
        messages[n] == m,
    ensures
        m.body.len() > 0 && !m.is_system_event ==> export_lines(messages, n + 1) == export_lines(
            messages,
            n,
        ).push(
            "{\"sender\":"@ + json_literal(m.sender) + ",\"sender_id\":"@ + json_literal(m.sender_id)
                + ",\"body\":"@ + json_literal(m.body) + "}"@,
        ),
        m.body.len() == 0 || m.is_system_event ==> export_lines(messages, n + 1) == export_lines(
            messages,
            n,
        ),
{
}

/// What is on disk is exported where there is anything, and what is in memory
/// otherwise.
pub proof fn law_disk_is_exported_first(
    disk: Option<Seq<MessageView>>,
    memory: Map<Seq<char>, RoomTimelineView>,
    room: Seq<char>,
)
    ensures
        disk is Some ==> source_of(disk, memory, room) == disk,
        disk is None && memory.contains_key(room) ==> source_of(disk, memory, room) == Some(
            memory[room].messages,
        ),
        source_of(disk, memory, room) is None <==> disk is None && !memory.contains_key(room),
{
}

} // verus!
