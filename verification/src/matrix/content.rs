//! The content of timeline events, and what of it is shown.

use vstd::prelude::*;
use crate::json::text_of;
use crate::matrix::info::{media_of, MediaInfo, MediaKind, MediaView};
use crate::models::message_object::reactions_view;
use crate::text::{chars_of, concat, push_str, same, string_of};

verus! {

/// The kinds of room messages.
#[derive(Debug, Clone, Copy, PartialEq, Eq, Structural)]
pub enum MessageKind {
    Text,
    Notice,
    Image,
    Video,
    Audio,
    File,
    /// An action of the sender, written with `/me`.
    Emote,
    Location,
    ServerNotice,
    /// A kind that the client does not know.
    Other,
}

/// A formatted body.
#[derive(Debug)]
pub struct Formatted {
    /// Whether the format is HTML.
    pub is_html: bool,
    pub body: String,
}

/// The content of a room message.
#[derive(Debug)]
pub struct MessageContent {
    pub kind: MessageKind,
    pub body: String,
    pub formatted: Option<Formatted>,
    /// The file name, where the sender gave one.
    pub filename: Option<String>,
    /// The size of the attachment in bytes.
    pub size: Option<u64>,
    /// mxc:// URL of the attachment.
    pub url: String,
    /// The media source as JSON.
    pub source_json: String,
}

/// The HTML body, if the message has one.
pub open spec fn html_of(c: MessageContent) -> Option<Seq<char>> {
    match c.formatted {
        Some(f) => if f.is_html {
            Some(f.body@)
        } else {
            None
        },
        None => None,
    }
}

/// The kind of attachment that a message carries.
pub open spec fn media_kind(k: MessageKind) -> Option<MediaKind> {
    match k {
        MessageKind::Image => Some(MediaKind::Image),
        MessageKind::Video => Some(MediaKind::Video),
        MessageKind::Audio => Some(MediaKind::Audio),
        MessageKind::File => Some(MediaKind::File),
        _ => None,
    }
}

/// The plain text that is shown for a message.
pub open spec fn shown_body(c: MessageContent) -> Seq<char> {
    match c.kind {
        MessageKind::Emote => "* "@ + c.body@,
        MessageKind::Location => "\u{1f4cd} "@ + c.body@,
        MessageKind::Other => "[unsupported message type]"@,
        _ => c.body@,
    }
}

/// The HTML that is shown for a message, if any.
pub open spec fn shown_html(c: MessageContent) -> Option<Seq<char>> {
    match c.kind {
        MessageKind::Text | MessageKind::Notice => html_of(c),
        MessageKind::Emote => match html_of(c) {
            Some(h) => Some("<i>"@ + h + "</i>"@),
            None => None,
        },
        _ => None,
    }
}

/// The attachment that is shown for a message, if any. A sound is named by its
/// body, any other attachment by its file name where there is one.
pub open spec fn shown_media(c: MessageContent) -> Option<MediaView> {
    match media_kind(c.kind) {
        None => None,
        Some(kind) => Some(
            MediaView {
                kind,
                filename: if c.kind == MessageKind::Audio || c.filename is None {
                    c.body@
                } else {
                    c.filename->0@
                },
                size: c.size,
                url: c.url@,
                source_json: c.source_json@,
            },
        ),
    }
}

/// Body text, HTML body and attachment of a message.
pub fn extract_message_content(c: &MessageContent) -> (r: Option<
    (String, Option<String>, Option<MediaInfo>),
>)
    ensures
        r matches Some((body, html, media)) && body@ == shown_body(*c) && text_of(html)
            == shown_html(*c) && media_of(media) == shown_media(*c),
{
    let html: Option<&String> = match &c.formatted {
        Some(f) => if f.is_html {
            Some(&f.body)
        } else {
            None
        },
        None => None,
    };
    match c.kind {
        MessageKind::Text | MessageKind::Notice => Some(
            (
                c.body.clone(),
                match html {
                    Some(h) => Some(h.clone()),
                    None => None,
                },
                None,
            ),
        ),
        MessageKind::Image => Some((c.body.clone(), None, Some(attachment(c, MediaKind::Image)))),
        MessageKind::Video => Some((c.body.clone(), None, Some(attachment(c, MediaKind::Video)))),
        MessageKind::Audio => Some((c.body.clone(), None, Some(attachment(c, MediaKind::Audio)))),
        MessageKind::File => Some((c.body.clone(), None, Some(attachment(c, MediaKind::File)))),
        MessageKind::Emote => Some(
            (
                concat("* ", &c.body),
                match html {
                    Some(h) => Some(concat(&concat("<i>", h), "</i>")),
                    None => None,
                },
                None,
            ),
        ),
        MessageKind::Location => Some((concat("\u{1f4cd} ", &c.body), None, None)),
        MessageKind::ServerNotice => Some((c.body.clone(), None, None)),
        MessageKind::Other => Some(("[unsupported message type]".to_owned(), None, None)),
    }
}

fn attachment(c: &MessageContent, kind: MediaKind) -> (r: MediaInfo)
    requires
        media_kind(c.kind) == Some(kind),
    ensures
        Some(r@) == shown_media(*c),
{
    let filename: String = match &c.filename {
        Some(f) => if let MessageKind::Audio = c.kind {
            c.body.clone()
        } else {
            f.clone()
        },
        None => c.body.clone(),
    };
    MediaInfo {
        kind,
        filename,
        size: c.size,
        url: c.url.clone(),
        source_json: c.source_json.clone(),
    }
}

/// The states of membership in a room.
#[derive(Debug, Clone, Copy, PartialEq, Eq, Structural)]
pub enum Membership {
    Join,
    Leave,
    Invite,
    Ban,
    /// A state that is not shown.
    Other,
}

/// A reason behind a membership change, as it is appended to the text.
pub open spec fn reason_text(reason: Option<Seq<char>>) -> Seq<char> {
    match reason {
        Some(r) => ": "@ + r,
        None => Seq::empty(),
    }
}

/// The line that is shown for a membership change; None where nothing is shown.
/// To leave is to be kicked where somebody else did it.
pub open spec fn membership_line(
    membership: Membership,
    by_other: bool,
    sender: Seq<char>,
    target: Seq<char>,
    reason: Option<Seq<char>>,
) -> Option<Seq<char>> {
    match membership {
        Membership::Join => Some(target + " joined"@),
        Membership::Leave => if by_other {
            Some(sender + " kicked "@ + target + reason_text(reason))
        } else {
            Some(target + " left"@)
        },
        Membership::Invite => Some(sender + " invited "@ + target),
        Membership::Ban => Some(sender + " banned "@ + target + reason_text(reason)),
        Membership::Other => None,
    }
}

/// The line that is shown for a membership change.
pub fn membership_text(
    membership: Membership,
    by_other: bool,
    sender: &str,
    target: &str,
    reason: Option<&str>,
) -> (r: Option<String>)
    ensures
        text_of(r) == membership_line(
            membership,
            by_other,
            sender@,
            target@,
            (match reason {
                Some(s) => Some(s@),
                None => None,
            }),
        ),
{
    let tail: String = match reason {
        Some(s) => concat(": ", s),
        None => String::new(),
    };
    assert(tail@ == reason_text(
        match reason {
            Some(s) => Some(s@),
            None => None,
        },
    ));
    match membership {
        Membership::Join => Some(concat(target, " joined")),
        Membership::Leave => if by_other {
            let mut out = chars_of(sender);
            push_str(&mut out, " kicked ");
            push_str(&mut out, target);
            push_str(&mut out, &tail);
            Some(string_of(&out))
        } else {
            Some(concat(target, " left"))
        },
        Membership::Invite => {
            let mut out = chars_of(sender);
            push_str(&mut out, " invited ");
            push_str(&mut out, target);
            Some(string_of(&out))
        },
        Membership::Ban => {
            let mut out = chars_of(sender);
            push_str(&mut out, " banned ");
            push_str(&mut out, target);
            push_str(&mut out, &tail);
            Some(string_of(&out))
        },
        Membership::Other => None,
    }
}

/// One emoji on a message: how often it was used and by whom.
pub type Group = (Seq<char>, u64, Seq<Seq<char>>);

/// The group of the emoji, from `i` on; the number of groups if there is none.
pub open spec fn group_position(groups: Seq<Group>, emoji: Seq<char>, i: int) -> int
    decreases groups.len() - i,
{
    if i >= groups.len() {
        groups.len() as int
    } else if groups[i].0 == emoji {
        i
    } else {
        group_position(groups, emoji, i + 1)
    }
}

/// The groups with one more reaction.
pub open spec fn with_reaction(groups: Seq<Group>, emoji: Seq<char>, sender: Seq<char>) -> Seq<
    Group,
> {
    let p = group_position(groups, emoji, 0);
    if p < groups.len() {
        let senders = groups[p].2.push(sender);
        groups.update(p, (emoji, senders.len() as u64, senders))
    } else {
        groups.push((emoji, 1, seq![sender]))
    }
}

/// Reactions grouped by emoji, in the order in which each emoji came first.
pub open spec fn grouped(entries: Seq<(String, String)>) -> Seq<Group>
    decreases entries.len(),
{
    if entries.len() == 0 {
        Seq::empty()
    } else {
        with_reaction(grouped(entries.drop_last()), entries.last().0@, entries.last().1@)
    }
}

proof fn lemma_group_position(groups: Seq<Group>, emoji: Seq<char>, i: int)
    requires
        0 <= i <= groups.len(),
    ensures
        i <= group_position(groups, emoji, i) <= groups.len(),
        group_position(groups, emoji, i) < groups.len() ==> groups[group_position(
            groups,
            emoji,
            i,
        )].0 == emoji,
        group_position(groups, emoji, i) == groups.len() ==> forall|j: int|
            i <= j < groups.len() ==> (#[trigger] groups[j]).0 != emoji,
    decreases groups.len() - i,
{
    if i < groups.len() && groups[i].0 != emoji {
        lemma_group_position(groups, emoji, i + 1);
    }
}

/// Groups the reactions of a message by emoji: emoji, count, and who reacted.
pub fn aggregate_reactions(entries: Option<&Vec<(String, String)>>) -> (r: Vec<
    (String, u64, Vec<String>),
>)
    ensures
        reactions_view(r@) == (match entries {
            Some(e) => grouped(e@),
            None => Seq::empty(),
        }),
{
    let mut out: Vec<(String, u64, Vec<String>)> = Vec::new();
    assert(reactions_view(out@) =~= Seq::<Group>::empty());
    let Some(list) = entries else {
        return out;
    };
    let mut i: usize = 0;
    assert(list@.take(0) =~= Seq::<(String, String)>::empty());
    while i < list.len()
        invariant
            i <= list@.len(),
            reactions_view(out@) == grouped(list@.take(i as int)),
            out@.len() <= i,
        decreases list@.len() - i,
    {
        let ghost groups = reactions_view(out@);
        let emoji: &String = &list[i].0;
        let sender: &String = &list[i].1;
        let mut p: usize = 0;
        while p < out.len() && !same(&out[p].0, emoji)
            invariant
                p <= out@.len(),
                groups == reactions_view(out@),
                group_position(groups, emoji@, 0) == group_position(groups, emoji@, p as int),
            decreases out@.len() - p,
        {
            assert(groups[p as int].0 == out@[p as int].0@);
            p = p + 1;
        }
        proof {
            assert(list@.take(i + 1).drop_last() =~= list@.take(i as int));
            if p < out@.len() {
                assert(groups[p as int].0 == out@[p as int].0@);
            }
        }
        if p < out.len() {
            let ghost before = out@;
            let mut senders: Vec<String> = Vec::new();
            std::mem::swap(&mut out[p].2, &mut senders);
            senders.push(sender.clone());
            let n: u64 = senders.len() as u64;
            out.set(p, (emoji.clone(), n, senders));
            proof {
                let names = before[p as int].2@.map_values(|n: String| n@);
                assert(senders@.map_values(|n: String| n@) =~= names.push(sender@));
                assert(reactions_view(out@) =~= with_reaction(groups, emoji@, sender@));
            }
        } else {
            let mut senders: Vec<String> = Vec::new();
            senders.push(sender.clone());
            out.push((emoji.clone(), 1, senders));
            proof {
                assert(senders@.map_values(|n: String| n@) =~= seq![sender@]);
                assert(reactions_view(out@) =~= with_reaction(groups, emoji@, sender@));
            }
        }
        i = i + 1;
    }
    assert(list@.take(i as int) =~= list@);
    out
}

/// How many reactions the groups hold.
pub open spec fn reaction_total(groups: Seq<Group>) -> nat
    decreases groups.len(),
{
    if groups.len() == 0 {
        0
    } else {
        reaction_total(groups.drop_last()) + groups.last().2.len()
    }
}

proof fn lemma_total_update(groups: Seq<Group>, p: int, g: Group)
    requires
        0 <= p < groups.len(),
    ensures
        reaction_total(groups.update(p, g)) == reaction_total(groups) - groups[p].2.len()
            + g.2.len(),
    decreases groups.len(),
{
    if p == groups.len() - 1 {
        assert(groups.update(p, g).drop_last() =~= groups.drop_last());
    } else {
        lemma_total_update(groups.drop_last(), p, g);
        assert(groups.update(p, g).drop_last() =~= groups.drop_last().update(p, g));
    }
}

/// Grouping loses no reaction, and each emoji has one group.
pub proof fn law_reactions_counted(entries: Seq<(String, String)>)
    ensures
        reaction_total(grouped(entries)) == entries.len(),
        forall|i: int, j: int|
            0 <= i < j < grouped(entries).len() ==> (#[trigger] grouped(entries)[i]).0 != (
            #[trigger] grouped(entries)[j]).0,
    decreases entries.len(),
{
    if entries.len() > 0 {
        law_reactions_counted(entries.drop_last());
        let groups = grouped(entries.drop_last());
        let emoji = entries.last().0@;
        let p = group_position(groups, emoji, 0);
        lemma_group_position(groups, emoji, 0);
        if p < groups.len() {
            let senders = groups[p].2.push(entries.last().1@);
            lemma_total_update(groups, p, (emoji, senders.len() as u64, senders));
        } else {
            assert(grouped(entries).drop_last() =~= groups);
        }
    }
}

proof fn lemma_with_reaction_keeps(groups: Seq<Group>, emoji: Seq<char>, sender: Seq<char>, g: int)
    requires
        0 <= g < groups.len(),
    ensures
        ({
            let next = with_reaction(groups, emoji, sender);
            &&& groups.len() <= next.len()
            &&& next[g].0 == groups[g].0
            &&& forall|s: Seq<char>| groups[g].2.contains(s) ==> #[trigger] next[g].2.contains(s)
        }),
{
    lemma_group_position(groups, emoji, 0);
    let p = group_position(groups, emoji, 0);
    let next = with_reaction(groups, emoji, sender);
    assert forall|s: Seq<char>| groups[g].2.contains(s) implies #[trigger] next[g].2.contains(s) by {
        let x = choose|x: int| 0 <= x < groups[g].2.len() && groups[g].2[x] == s;
        if p == g {
            assert(next[g].2[x] == s);
        }
    }
}

/// Every reaction is counted under its own emoji, with who reacted.
pub proof fn law_reaction_is_grouped(entries: Seq<(String, String)>, i: int)
    requires
        0 <= i < entries.len(),
    ensures
        exists|g: int|
            0 <= g < grouped(entries).len() && (#[trigger] grouped(entries)[g]).0 == entries[i].0@
                && grouped(entries)[g].2.contains(entries[i].1@),
    decreases entries.len(),
{
    let before = grouped(entries.drop_last());
    let emoji = entries.last().0@;
    let sender = entries.last().1@;
    let all = grouped(entries);
    lemma_group_position(before, emoji, 0);
    let p = group_position(before, emoji, 0);
    if i == entries.len() - 1 {
        if p < before.len() {
            let n = before[p].2.len() as int;
            assert(all[p].2[n] == sender);
            assert(all[p].0 == emoji);
        } else {
            assert(all[before.len() as int].2[0] == sender);
            assert(all[before.len() as int].0 == emoji);
        }
    } else {
        assert(entries.drop_last()[i] == entries[i]);
        law_reaction_is_grouped(entries.drop_last(), i);
        let g = choose|g: int|
            0 <= g < before.len() && (#[trigger] before[g]).0 == entries[i].0@ && before[g].2.contains(
                entries[i].1@,
            );
        lemma_with_reaction_keeps(before, emoji, sender, g);
        assert(all[g].0 == entries[i].0@);
    }
}

/// The number of an emoji is the number of those who used it.
pub proof fn law_counts_are_of_senders(entries: Seq<(String, String)>, g: int)
    requires
        0 <= g < grouped(entries).len(),
        entries.len() <= u64::MAX,
    ensures
        grouped(entries)[g].1 == grouped(entries)[g].2.len(),
        grouped(entries)[g].2.len() <= entries.len(),
        grouped(entries)[g].1 > 0,
    decreases entries.len(),
{
    if entries.len() > 0 {
        let before = grouped(entries.drop_last());
        let emoji = entries.last().0@;
        lemma_group_position(before, emoji, 0);
        if g < before.len() {
            law_counts_are_of_senders(entries.drop_last(), g);
        }
    }
}

/// What is shown of a message, by its kind.
pub proof fn law_content_by_kind(c: MessageContent)
    ensures
        c.kind == MessageKind::Text || c.kind == MessageKind::Notice ==> shown_body(c) == c.body@
            && shown_html(c) == (if c.formatted is Some && c.formatted->0.is_html {
            Some(c.formatted->0.body@)
        } else {
            None
        }),
        c.kind == MessageKind::Emote ==> shown_body(c) == "* "@ + c.body@ && shown_html(c) == (
        if c.formatted is Some && c.formatted->0.is_html {
            Some("<i>"@ + c.formatted->0.body@ + "</i>"@)
        } else {
            None
        }),
        c.kind == MessageKind::Image || c.kind == MessageKind::Video || c.kind == MessageKind::Audio
            || c.kind == MessageKind::File ==> shown_body(c) == c.body@ && shown_html(c) is None
            && shown_media(c) is Some && shown_media(c)->0.url == c.url@ && shown_media(c)->0.size
            == c.size && shown_media(c)->0.source_json == c.source_json@,
        c.kind == MessageKind::Location ==> shown_body(c) == "\u{1f4cd} "@ + c.body@,
        c.kind == MessageKind::ServerNotice ==> shown_body(c) == c.body@,
        c.kind == MessageKind::Other ==> shown_body(c) == "[unsupported message type]"@,
        shown_media(c) is Some <==> c.kind == MessageKind::Image || c.kind == MessageKind::Video
            || c.kind == MessageKind::Audio || c.kind == MessageKind::File,
{
}

/// A membership change is told by who it concerns and who made it: nobody is said to
/// have left who was kicked, and the reason comes last.
pub proof fn law_membership_is_told(sender: Seq<char>, target: Seq<char>, why: Seq<char>)
    ensures
        membership_line(Membership::Join, false, sender, target, None) == Some(target + " joined"@),
        membership_line(Membership::Join, true, sender, target, Some(why)) == Some(
            target + " joined"@,
        ),
        membership_line(Membership::Leave, false, sender, target, Some(why)) == Some(
            target + " left"@,
        ),
        membership_line(Membership::Leave, true, sender, target, None) == Some(
            sender + " kicked "@ + target,
        ),
        membership_line(Membership::Leave, true, sender, target, Some(why)) == Some(
            sender + " kicked "@ + target + ": "@ + why,
        ),
        membership_line(Membership::Invite, true, sender, target, None) == Some(
            sender + " invited "@ + target,
        ),
        membership_line(Membership::Ban, true, sender, target, None) == Some(
            sender + " banned "@ + target,
        ),
        membership_line(Membership::Ban, true, sender, target, Some(why)) == Some(
            sender + " banned "@ + target + ": "@ + why,
        ),
        membership_line(Membership::Other, true, sender, target, Some(why)) is None,
{
    let none = Seq::<char>::empty();
    assert(sender + " kicked "@ + target + none =~= sender + " kicked "@ + target);
    assert(sender + " banned "@ + target + none =~= sender + " banned "@ + target);
    assert(sender + " kicked "@ + target + (": "@ + why) =~= sender + " kicked "@ + target + ": "@
        + why);
    assert(sender + " banned "@ + target + (": "@ + why) =~= sender + " banned "@ + target + ": "@
        + why);
}

} // verus!
