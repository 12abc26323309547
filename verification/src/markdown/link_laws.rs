//! What links in messages read as, and where they lead.

use vstd::prelude::*;
use crate::directory::Directory;
use crate::markdown::entities::{decode, entity, markup_escape};
use crate::markdown::links::{
    alias_at, alias_linked, aliases_linked, event_link, first_event_link, http_linked, linked,
    local_end, matrix_to, pill, pill_label, room_decoded, server_end, trim_trailing, url_end, url_link,
};
use crate::text::{
    contains, find, find_char, find_space, is_ascii_alnum, is_ascii_space, is_space, lemma_find, lemma_find_char,
    matches_at, replace_from, starts_with,
};

verus! {

// ---- addresses ----------------------------------------------------------------

/// Whether a text is an address on the web, without white space or brackets.
pub open spec fn web_address(url: Seq<char>) -> bool {
    &&& starts_with(url, "https://"@) || starts_with(url, "http://"@)
    &&& forall|i: int|
        0 <= i < url.len() ==> !is_space(#[trigger] url[i]) && url[i] != '<' && url[i] != '>'
}

/// Whether a text ends the address that stands before it: it is empty, or begins
/// with white space or a bracket.
pub open spec fn ends_address(b: Seq<char>) -> bool {
    b.len() == 0 || is_space(b[0]) || b[0] == '<' || b[0] == '>'
}

proof fn lemma_url_end_at(url: Seq<char>, b: Seq<char>, i: int)
    requires
        web_address(url),
        ends_address(b),
        0 <= i <= url.len(),
    ensures
        url_end(url + b, i) == url.len(),
    decreases url.len() - i,
{
    let s = url + b;
    if i < url.len() {
        assert(s[i] == url[i]);
        lemma_url_end_at(url, b, i + 1);
    } else if b.len() > 0 {
        assert(s[i] == b[0]);
    }
}

proof fn lemma_scheme(url: Seq<char>)
    requires
        web_address(url),
    ensures
        url.len() >= 7,
        matches_at(url, "http"@, 0),
        "http"@ == seq!['h', 't', 't', 'p'],
{
    reveal_strlit("http");
    reveal_strlit("https://");
    reveal_strlit("http://");
    assert("http"@ == seq!['h', 't', 't', 'p']);
    let p = if starts_with(url, "https://"@) {
        "https://"@
    } else {
        "http://"@
    };
    assert(p[0] == 'h' && p[1] == 't' && p[2] == 't' && p[3] == 'p');
    assert(url.subrange(0, p.len() as int) == p);
    assert forall|i: int| 0 <= i < 4 implies url[i] == p[i] by {
        assert(url.subrange(0, p.len() as int)[i] == p[i]);
    }
    assert(url.subrange(0, 4) == "http"@);
}

proof fn lemma_find_is(s: Seq<char>, p: Seq<char>, k: int)
    requires
        0 <= k < s.len(),
        matches_at(s, p, k),
        forall|j: int| 0 <= j < k ==> !matches_at(s, p, j),
    ensures
        find(s, p, 0) == k,
{
    lemma_find(s, p, 0);
    let f = find(s, p, 0);
    if f < k {
        assert(!matches_at(s, p, f));
    } else if f > k {
        assert(!matches_at(s, p, k));
    }
}

proof fn lemma_not_contained(s: Seq<char>, p: Seq<char>, j: int)
    requires
        !contains(s, p),
        0 <= j < s.len(),
    ensures
        !matches_at(s, p, j),
{
    lemma_find(s, p, 0);
}

/// The first address of a text is found behind a text that holds none.
proof fn lemma_first_address(a: Seq<char>, url: Seq<char>, b: Seq<char>)
    requires
        !contains(a, "http"@),
        web_address(url),
    ensures
        find(a + url + b, "http"@, 0) == a.len(),
{
    let s = a + url + b;
    let p = "http"@;
    let k = a.len() as int;
    lemma_scheme(url);
    assert(s.subrange(k, k + 4) == url.subrange(0, 4));
    assert forall|j: int| 0 <= j < k implies !matches_at(s, p, j) by {
        if matches_at(s, p, j) {
            let part = s.subrange(j, j + 4);
            if j + 4 <= k {
                assert(a.subrange(j, j + 4) == part);
                lemma_not_contained(a, p, j);
            } else {
                assert(url.subrange(0, 4)[0] == 'h');
                assert(part[k - j] == s[k]);
                assert(s[k] == url[0]);
            }
        }
    }
    lemma_find_is(s, p, k);
}

/// An address in a message becomes a link to that address which reads as the
/// address; the text around it stays as it is.
pub proof fn law_addresses_become_links(dir: Directory, a: Seq<char>, url: Seq<char>, b: Seq<char>)
    requires
        !contains(a, "http"@),
        !contains(b, "http"@),
        web_address(url),
        ends_address(b),
        !starts_with(url, "https://matrix.to/#/"@),
    ensures
        http_linked(dir, a + url + b) == a + ("<a href=\""@ + url + "\">"@ + url + "</a>"@) + b,
        !a.contains('#') && !url.contains('#') && !b.contains('#') ==> linked(dir, a + url + b) == a + (
        "<a href=\""@ + url + "\">"@ + url + "</a>"@) + b,
{
    lemma_address(dir, a, url, b);
    assert(pill_label(dir, url) is None);
    let link = "<a href=\""@ + url + "\">"@ + url + "</a>"@;
    let out = a + link + b;
    if !a.contains('#') && !url.contains('#') && !b.contains('#') {
        reveal_strlit("<a href=\"");
        reveal_strlit("\">");
        reveal_strlit("</a>");
        assert forall|i: int| 0 <= i < link.len() implies (#[trigger] link[i]) != '#' by {
            let l1 = "<a href=\""@;
            let l2 = "\">"@;
            let l3 = "</a>"@;
            let n = url.len() as int;
            if i < 9 {
                assert(link[i] == l1[i]);
            } else if i < 9 + n {
                assert(link[i] == url[i - 9]);
                assert(url.contains(url[i - 9]));
            } else if i < 11 + n {
                assert(link[i] == l2[i - 9 - n]);
            } else if i < 11 + 2 * n {
                assert(link[i] == url[i - 11 - n]);
                assert(url.contains(url[i - 11 - n]));
            } else {
                assert(link[i] == l3[i - 11 - 2 * n]);
            }
        }
        assert forall|i: int| 0 <= i < out.len() implies (#[trigger] out[i]) != '#' by {
            if i < a.len() {
                assert(a.contains(a[i]));
            } else if i < a.len() + link.len() {
                assert(out[i] == link[i - a.len()]);
            } else {
                assert(b.contains(b[i - a.len() - link.len()]));
            }
        }
        lemma_nothing_to_link(out, 0, false, 0, false);
        assert(out.subrange(0, out.len() as int) == out);
    }
}

proof fn lemma_address(dir: Directory, a: Seq<char>, url: Seq<char>, b: Seq<char>)
    requires
        !contains(a, "http"@),
        !contains(b, "http"@),
        web_address(url),
        ends_address(b),
    ensures
        http_linked(dir, a + url + b) == a + url_link(dir, url) + b,
{
    let s = a + url + b;
    let k = a.len() as int;
    lemma_first_address(a, url, b);
    lemma_scheme(url);
    let candidate = s.subrange(k, s.len() as int);
    assert(candidate == url + b);
    lemma_url_end_at(url, b, 0);
    assert(starts_with(candidate, "https://"@) || starts_with(candidate, "http://"@)) by {
        if starts_with(url, "https://"@) {
            assert(candidate.subrange(0, "https://"@.len() as int) == url.subrange(
                0,
                "https://"@.len() as int,
            ));
        } else {
            assert(candidate.subrange(0, "http://"@.len() as int) == url.subrange(
                0,
                "http://"@.len() as int,
            ));
        }
    }
    assert(candidate.subrange(0, url.len() as int) == url);
    assert(candidate.subrange(url.len() as int, candidate.len() as int) == b);
    assert(http_linked(dir, b) == b);
    assert(s.subrange(0, k) == a);
}

/// Text without a `#` names no room, so that nothing in it becomes a link to one.
proof fn lemma_nothing_to_link(s: Seq<char>, i: int, in_tag: bool, depth: int, run: bool)
    requires
        0 <= i <= s.len(),
        forall|j: int| 0 <= j < s.len() ==> (#[trigger] s[j]) != '#',
    ensures
        alias_linked(s, i, in_tag, depth, run) == s.subrange(i, s.len() as int),
    decreases s.len() - i,
{
    if i < s.len() {
        let rest = s.subrange(i + 1, s.len() as int);
        lemma_nothing_to_link(s, i + 1, true, depth, false);
        lemma_nothing_to_link(s, i + 1, true, depth + 1, false);
        lemma_nothing_to_link(s, i + 1, true, depth - 1, false);
        lemma_nothing_to_link(s, i + 1, false, depth, false);
        lemma_nothing_to_link(s, i + 1, in_tag, depth, true);
        assert(s[i] != '#');
        assert(s.subrange(i, s.len() as int) == seq![s[i]] + rest);
    }
}

/// Text without an address and without a room name stays as it is.
pub proof fn law_plain_text_is_not_linked(dir: Directory, s: Seq<char>)
    requires
        !contains(s, "http"@),
        !s.contains('#'),
    ensures
        linked(dir, s) == s,
{
    assert forall|j: int| 0 <= j < s.len() implies (#[trigger] s[j]) != '#' by {
        assert(s.contains(s[j]));
    }
    assert(http_linked(dir, s) == s);
    lemma_nothing_to_link(s, 0, false, 0, false);
    assert(s.subrange(0, s.len() as int) == s);
}

// ---- links to rooms, users and messages -----------------------------------------

/// Whether a text may stand as one part of a link's path, as it is.
pub open spec fn path_part(s: Seq<char>) -> bool {
    s.len() > 0 && forall|i: int|
        0 <= i < s.len() ==> (#[trigger] s[i]) != '/' && s[i] != '?' && s[i] != '%'
}

proof fn lemma_nothing_to_replace(s: Seq<char>, p: Seq<char>, to: Seq<char>, i: int)
    requires
        0 <= i <= s.len(),
        p.len() > 0,
        p[0] == '%',
        forall|j: int| 0 <= j < s.len() ==> (#[trigger] s[j]) != '%',
    ensures
        replace_from(s, p, to, i) == s.subrange(i, s.len() as int),
    decreases s.len() - i,
{
    if i < s.len() {
        if matches_at(s, p, i) {
            assert(s.subrange(i, i + p.len())[0] == p[0]);
            assert(s[i] == '%');
        }
        lemma_nothing_to_replace(s, p, to, i + 1);
        assert(s.subrange(i, s.len() as int) == seq![s[i]] + s.subrange(i + 1, s.len() as int));
    }
}

proof fn lemma_decoded(s: Seq<char>)
    requires
        path_part(s),
    ensures
        room_decoded(s) == s,
{
    reveal_strlit("%21");
    reveal_strlit("%23");
    assert("%21"@[0] == '%' && "%23"@[0] == '%');
    lemma_nothing_to_replace(s, "%21"@, "!"@, 0);
    assert(s.subrange(0, s.len() as int) == s);
    lemma_nothing_to_replace(s, "%23"@, "#"@, 0);
}

proof fn lemma_find_char_is(s: Seq<char>, c: char, k: int)
    requires
        0 <= k <= s.len(),
        k < s.len() ==> s[k] == c,
        forall|j: int| 0 <= j < k ==> (#[trigger] s[j]) != c,
    ensures
        find_char(s, c, 0) == k,
{
    lemma_find_char(s, c, 0);
    let f = find_char(s, c, 0);
    if f < k {
        assert(s[f] != c);
    } else if f > k {
        assert(s[k] != c);
    }
}

/// The parts of a link to a room or user, and of a link to a message; a query at the
/// end does not count.
proof fn lemma_matrix_to(id: Seq<char>, event: Seq<char>, query: Seq<char>)
    requires
        path_part(id),
        path_part(event),
        query.len() == 0 || query[0] == '?',
    ensures
        ({
            let m = matrix_to("https://matrix.to/#/"@ + id + query);
            m is Some && m->0.room == id && m->0.event is None
        }),
        ({
            let m = matrix_to("https://matrix.to/#/"@ + id + seq!['/'] + event + query);
            m is Some && m->0.room == id && m->0.event == Some(event)
        }),
{
    reveal_strlit("https://matrix.to/#/");
    let prefix = "https://matrix.to/#/"@;
    let n = prefix.len() as int;
    lemma_decoded(id);
    let short = prefix + id + query;
    assert(short.subrange(0, n) == prefix);
    let rest = short.subrange(n, short.len() as int);
    assert(rest == id + query);
    assert forall|j: int| 0 <= j < id.len() implies (#[trigger] rest[j]) != '?' by {
        assert(rest[j] == id[j]);
    }
    lemma_find_char_is(rest, '?', id.len() as int);
    assert(rest.subrange(0, id.len() as int) == id);
    lemma_find_char_is(id, '/', id.len() as int);
    assert(id.subrange(0, id.len() as int) == id);

    let both = id + seq!['/'] + event;
    let long = prefix + id + seq!['/'] + event + query;
    assert(long == prefix + both + query);
    assert(long.subrange(0, n) == prefix);
    let tail = long.subrange(n, long.len() as int);
    assert(tail == both + query);
    assert forall|j: int| 0 <= j < both.len() implies (#[trigger] tail[j]) != '?' by {
        if j < id.len() {
            assert(tail[j] == id[j]);
        } else if j > id.len() {
            assert(tail[j] == event[j - id.len() - 1]);
        }
    }
    lemma_find_char_is(tail, '?', both.len() as int);
    assert(tail.subrange(0, both.len() as int) == both);
    assert(both[id.len() as int] == '/');
    assert forall|j: int| 0 <= j < id.len() implies (#[trigger] both[j]) != '/' by {
        assert(both[j] == id[j]);
    }
    lemma_find_char_is(both, '/', id.len() as int);
    assert(both.subrange(0, id.len() as int) == id);
    assert(both.subrange(id.len() as int + 1, both.len() as int) == event);
}

/// A link to a user reads as the user's id.
pub proof fn law_user_links_read_as_users(dir: Directory, id: Seq<char>, query: Seq<char>)
    requires
        path_part(id),
        id[0] == '@',
        query.len() == 0 || query[0] == '?',
    ensures
        pill_label(dir, "https://matrix.to/#/"@ + id + query) == Some(id),
{
    lemma_matrix_to(id, id, query);
}

/// A link to a room reads as the name of the room, or as what it holds where the
/// name is not known. An alias goes by the name of the room that it leads to.
pub proof fn law_room_links_read_as_rooms(dir: Directory, id: Seq<char>, query: Seq<char>)
    requires
        path_part(id),
        id[0] == '!' || id[0] == '#',
        query.len() == 0 || query[0] == '?',
    ensures
        ({
            let label = pill_label(dir, "https://matrix.to/#/"@ + id + query);
            let owner = dir.alias_owner(id);
            &&& dir.name_of(id) is Some ==> label == Some("# "@ + dir.name_of(id)->0)
            &&& dir.name_of(id) is None && id[0] == '#' && owner is Some && dir.name_of(owner->0) is Some
                ==> label == Some("# "@ + dir.name_of(owner->0)->0)
            &&& dir.name_of(id) is None && (id[0] == '!' || owner is None) ==> label == Some(id)
        }),
{
    lemma_matrix_to(id, id, query);
}

/// A link to a message reads as a comment, with the name of its room where that is
/// known.
pub proof fn law_message_links_read_as_comments(
    dir: Directory,
    id: Seq<char>,
    event: Seq<char>,
    query: Seq<char>,
)
    requires
        path_part(id),
        path_part(event),
        id[0] == '!' || id[0] == '#',
        query.len() == 0 || query[0] == '?',
    ensures
        ({
            let label = pill_label(
                dir,
                "https://matrix.to/#/"@ + id + seq!['/'] + event + query,
            );
            &&& dir.name_of(id) is Some ==> label == Some(
                "Comment linked to "@ + dir.name_of(id)->0,
            )
            &&& dir.name_of(id) is None && (id[0] == '!' || dir.alias_owner(id) is None) ==> label
                == Some("Linked comment"@)
        }),
{
    lemma_matrix_to(id, event, query);
}

/// A link to a room, user or message in a text becomes a pill that leads where the
/// link led and reads as its label, escaped.
pub proof fn law_permalinks_become_pills(
    dir: Directory,
    a: Seq<char>,
    url: Seq<char>,
    label: Seq<char>,
    b: Seq<char>,
)
    requires
        !contains(a, "http"@),
        !contains(b, "http"@),
        web_address(url),
        ends_address(b),
        pill_label(dir, url) == Some(label),
    ensures
        http_linked(dir, a + url + b) == a + (
        "<a href=\""@ + url
            + "\"><span foreground=\"#ffffff\" background=\"#26a269\" weight=\"bold\" underline=\"none\">\u{a0}"@
            + markup_escape(label) + "\u{a0}</span></a>"@) + b,
{
    lemma_address(dir, a, url, b);
}

/// A link to a message is found in a sentence, with the punctuation behind it left
/// out: it gives the room and the message.
pub proof fn law_message_links_are_found(
    id: Seq<char>,
    event: Seq<char>,
    end: Seq<char>,
    rest: Seq<char>,
)
    requires
        path_part(id),
        path_part(event),
        id[0] == '!' || id[0] == '#',
        event[0] == '$',
        forall|i: int| 0 <= i < id.len() ==> !is_space(#[trigger] id[i]),
        forall|i: int| 0 <= i < event.len() ==> !is_space(#[trigger] event[i]),
        is_ascii_alnum(event.last()),
        end.len() == 0 || end == seq!['.'] || end == seq![','] || end == seq![')'] || end == seq!['!']
            || end == seq![';'] || end == seq![':'],
        rest.len() == 0 || is_space(rest[0]),
    ensures
        first_event_link(
            "https://matrix.to/#/"@ + id + seq!['/'] + event + end + rest,
            0,
        ) == Some((id, event)),
{
    reveal_strlit("https://matrix.to/#/");
    let prefix = "https://matrix.to/#/"@;
    let url = prefix + id + seq!['/'] + event;
    let word = url + end;
    let s = prefix + id + seq!['/'] + event + end + rest;
    assert(s == word + rest);
    lemma_matrix_to(id, event, Seq::empty());
    assert(url + Seq::<char>::empty() == url);
    assert(url.last() == event.last());
    assert(trim_trailing(url) == url);
    assert(trim_trailing(word) == url) by {
        if end.len() > 0 {
            assert(word.last() == end[0]);
            assert(word.drop_last() == url);
        } else {
            assert(word == url);
        }
    }
    assert forall|i: int| 0 <= i < word.len() implies !is_space(#[trigger] word[i]) by {
        let n = prefix.len() as int;
        if i < n {
            assert(word[i] == prefix[i]);
        } else if i < n + id.len() {
            assert(word[i] == id[i - n]);
        } else if i == n + id.len() {
            assert(word[i] == '/');
        } else if i < url.len() {
            assert(word[i] == event[i - n - id.len() - 1]);
        } else {
            assert(word[i] == end[0]);
        }
    }
    lemma_find_space_at(word, rest, 0);
    assert(s.subrange(0, word.len() as int) == word);
    assert(s[0] == word[0]);
    assert(!is_space(word[0]));
}

proof fn lemma_find_space_at(word: Seq<char>, rest: Seq<char>, i: int)
    requires
        0 <= i <= word.len(),
        forall|j: int| 0 <= j < word.len() ==> !is_space(#[trigger] word[j]),
        rest.len() == 0 || is_space(rest[0]),
    ensures
        find_space(word + rest, i) == word.len(),
    decreases word.len() - i,
{
    let s = word + rest;
    if i < word.len() {
        assert(s[i] == word[i]);
        lemma_find_space_at(word, rest, i + 1);
    } else if rest.len() > 0 {
        assert(s[i] == rest[0]);
    }
}

/// A word that is no link to a message is passed over, and so is the white space
/// behind it.
pub proof fn law_other_words_are_passed_over(word: Seq<char>, rest: Seq<char>)
    requires
        word.len() > 0,
        forall|i: int| 0 <= i < word.len() ==> !is_space(#[trigger] word[i]),
        rest.len() == 0 || is_space(rest[0]),
        !starts_with(word, "https://matrix.to/#/"@),
    ensures
        first_event_link(word + rest, 0) == first_event_link(word + rest, word.len() as int),
{
    let s = word + rest;
    lemma_find_space_at(word, rest, 0);
    assert(s.subrange(0, word.len() as int) == word);
    assert(s[0] == word[0]);
    lemma_trimmed_prefix(word);
    assert(event_link(word) is None) by {
        let t = trim_trailing(word);
        let p = "https://matrix.to/#/"@;
        if starts_with(t, p) {
            assert(word.subrange(0, p.len() as int) == t.subrange(0, p.len() as int));
        }
    }
}

proof fn lemma_trimmed_prefix(s: Seq<char>)
    ensures
        trim_trailing(s).len() <= s.len(),
        trim_trailing(s) == s.take(trim_trailing(s).len() as int),
    decreases s.len(),
{
    if s.len() > 0 {
        lemma_trimmed_prefix(s.drop_last());
        assert(s.drop_last().take(trim_trailing(s.drop_last()).len() as int) == s.take(
            trim_trailing(s.drop_last()).len() as int,
        ));
    }
    assert(s.take(s.len() as int) == s);
}

// ---- room names in text -------------------------------------------------------

/// Whether a text may stand before the colon of a room name.
pub open spec fn alias_local(s: Seq<char>) -> bool {
    s.len() > 0 && forall|i: int|
        0 <= i < s.len() ==> is_ascii_alnum(#[trigger] s[i]) || s[i] == '_' || s[i] == '.' || s[i] == '-'
}

/// Whether a text may stand behind the colon of a room name: it holds a dot, and no
/// white space, bracket or slash.
pub open spec fn alias_server(s: Seq<char>) -> bool {
    s.contains('.') && forall|i: int|
        0 <= i < s.len() ==> !is_ascii_space(#[trigger] s[i]) && s[i] != '<' && s[i] != '>' && s[i] != '/'
}

proof fn lemma_local_end_is(s: Seq<char>, i: int, e: int)
    requires
        0 <= i <= e < s.len(),
        s[e] == ':',
        forall|j: int|
            i <= j < e ==> is_ascii_alnum(#[trigger] s[j]) || s[j] == '_' || s[j] == '.' || s[j] == '-',
    ensures
        local_end(s, i) == e,
    decreases e - i,
{
    if i < e {
        assert(is_ascii_alnum(s[i]) || s[i] == '_' || s[i] == '.' || s[i] == '-');
        lemma_local_end_is(s, i + 1, e);
    }
}

proof fn lemma_server_end_is(s: Seq<char>, i: int, e: int)
    requires
        0 <= i <= e <= s.len(),
        e < s.len() ==> is_ascii_space(s[e]) || s[e] == '<' || s[e] == '>' || s[e] == '/',
        forall|j: int|
            i <= j < e ==> !is_ascii_space(#[trigger] s[j]) && s[j] != '<' && s[j] != '>' && s[j] != '/',
    ensures
        server_end(s, i) == e,
    decreases e - i,
{
    if i < e {
        assert(!is_ascii_space(s[i]) && s[i] != '<' && s[i] != '>' && s[i] != '/');
        lemma_server_end_is(s, i + 1, e);
    }
}

/// A room name in a text becomes a link to the room, which reads as the name; the
/// text around it stays as it is. Behind a letter or digit there is no room name.
pub proof fn law_room_names_become_links(
    a: Seq<char>,
    local: Seq<char>,
    server: Seq<char>,
    b: Seq<char>,
)
    requires
        alias_local(local),
        alias_server(server),
        forall|i: int|
            0 <= i < a.len() ==> (#[trigger] a[i]) != '#' && a[i] != '<' && a[i] != '>',
        forall|i: int|
            0 <= i < b.len() ==> (#[trigger] b[i]) != '#' && b[i] != '<' && b[i] != '>',
        b.len() == 0 || is_ascii_space(b[0]) || b[0] == '/',
    ensures
        ({
            let name = local + seq![':'] + server;
            let out = aliases_linked(a + (seq!['#'] + name) + b);
            &&& a.len() == 0 || !is_ascii_alnum(a.last()) ==> out == a + pill(
                "https://matrix.to/#/%23"@ + name,
                seq!['#'] + name,
            ) + b
            &&& a.len() > 0 && is_ascii_alnum(a.last()) && !server.contains('#') ==> out == a + (
            seq!['#'] + name) + b
        }),
{
    let name = local + seq![':'] + server;
    let alias = seq!['#'] + name;
    let s = a + alias + b;
    let i = a.len() as int;
    let j = i + 1 + local.len();
    let k = i + alias.len();
    assert(s[i] == '#');
    assert(s[j] == ':');
    assert forall|x: int| i + 1 <= x < j implies is_ascii_alnum(#[trigger] s[x]) || s[x] == '_' || s[x]
        == '.' || s[x] == '-' by {
        assert(s[x] == local[x - i - 1]);
    }
    lemma_local_end_is(s, i + 1, j);
    assert forall|x: int| j + 1 <= x < k implies !is_ascii_space(#[trigger] s[x]) && s[x] != '<' && s[x]
        != '>' && s[x] != '/' by {
        assert(s[x] == server[x - j - 1]);
    }
    if b.len() > 0 {
        assert(s[k] == b[0]);
    }
    lemma_server_end_is(s, j + 1, k);
    assert(s.subrange(j + 1, k) == server);
    if i > 0 {
        assert(s[i - 1] == a.last());
    }
    assert(s.subrange(i, k) == alias);
    assert(alias.drop_first() == name);
    lemma_copied_until(s, 0, i, false);
    assert(s.subrange(0, i) == a);
    if a.len() == 0 || !is_ascii_alnum(a.last()) {
        assert(alias_at(s, i) == Some(k));
        lemma_rest_copied(s, k, false);
        assert(s.subrange(k, s.len() as int) == b);
    } else if !server.contains('#') {
        assert(alias_at(s, i) is None);
        assert forall|x: int| i < x < s.len() implies (#[trigger] s[x]) != '#' by {
            if x < j {
                assert(s[x] == local[x - i - 1]);
            } else if j < x < k {
                assert(s[x] == server[x - j - 1]);
                assert(server.contains(server[x - j - 1]));
            } else if x >= k {
                assert(s[x] == b[x - k]);
            }
        }
        lemma_rest_copied(s, i + 1, false);
        assert(s == a + (seq!['#'] + s.subrange(i + 1, s.len() as int)));
    }
}

/// Up to the first `#` outside of tags everything is copied.
proof fn lemma_copied_until(s: Seq<char>, from: int, i: int, run: bool)
    requires
        0 <= from <= i < s.len(),
        s[i] == '#',
        forall|j: int| from <= j < i ==> (#[trigger] s[j]) != '#' && s[j] != '<' && s[j] != '>',
    ensures
        alias_linked(s, from, false, 0, run) == s.subrange(from, i) + alias_linked(
            s,
            i,
            false,
            0,
            true,
        ),
    decreases i - from,
{
    if from < i {
        assert(s[from] != '#' && s[from] != '<' && s[from] != '>');
        lemma_copied_until(s, from + 1, i, true);
        assert(s.subrange(from, i) == seq![s[from]] + s.subrange(from + 1, i));
    } else {
        assert(s.subrange(from, i) == Seq::<char>::empty());
        assert(alias_linked(s, i, false, 0, run) == alias_linked(s, i, false, 0, true));
    }
}

proof fn lemma_rest_copied(s: Seq<char>, i: int, run: bool)
    requires
        0 <= i <= s.len(),
        forall|j: int| i <= j < s.len() ==> (#[trigger] s[j]) != '#',
    ensures
        alias_linked(s, i, false, 0, run) == s.subrange(i, s.len() as int),
    decreases s.len() - i,
{
    lemma_tail_copied(s, i, false, 0, run);
}

proof fn lemma_tail_copied(s: Seq<char>, i: int, in_tag: bool, depth: int, run: bool)
    requires
        0 <= i <= s.len(),
        forall|j: int| i <= j < s.len() ==> (#[trigger] s[j]) != '#',
    ensures
        alias_linked(s, i, in_tag, depth, run) == s.subrange(i, s.len() as int),
    decreases s.len() - i,
{
    if i < s.len() {
        lemma_tail_copied(s, i + 1, true, depth, false);
        lemma_tail_copied(s, i + 1, true, depth + 1, false);
        lemma_tail_copied(s, i + 1, true, depth - 1, false);
        lemma_tail_copied(s, i + 1, false, depth, false);
        lemma_tail_copied(s, i + 1, in_tag, depth, true);
        assert(s[i] != '#');
        assert(s.subrange(i, s.len() as int) == seq![s[i]] + s.subrange(i + 1, s.len() as int));
    }
}

// ---- character references -------------------------------------------------------

proof fn lemma_reference(e: Seq<char>, rest: Seq<char>)
    requires
        !e.contains(';'),
        entity(e) is Some,
    ensures
        decode(seq!['&'] + e + seq![';'] + rest) == entity(e)->0 + decode(rest),
{
    let s = seq!['&'] + e + seq![';'] + rest;
    let k = e.len() as int + 1;
    assert(s[0] == '&' && s[k] == ';');
    assert forall|j: int| 0 <= j < k implies (#[trigger] s[j]) != ';' by {
        if j > 0 {
            assert(s[j] == e[j - 1]);
            assert(e.contains(e[j - 1]));
        }
    }
    lemma_find_char_is(s, ';', k);
    assert(s.subrange(1, k) == e);
    assert(s.subrange(k + 1, s.len() as int) == rest);
}

/// The named character references stand for their characters, wherever they stand
/// in a text; an `&` that begins none, and any other character, stands for itself.
pub proof fn law_references_are_resolved(rest: Seq<char>, c: char)
    ensures
        decode("&amp;"@ + rest) == seq!['&'] + decode(rest),
        decode("&lt;"@ + rest) == seq!['<'] + decode(rest),
        decode("&gt;"@ + rest) == seq!['>'] + decode(rest),
        decode("&quot;"@ + rest) == seq!['"'] + decode(rest),
        decode("&apos;"@ + rest) == seq!['\''] + decode(rest),
        decode("&nbsp;"@ + rest) == seq!['\u{a0}'] + decode(rest),
        decode("&#39;"@ + rest) == seq!['\''] + decode(rest),
        decode("&#x27;"@ + rest) == seq!['\''] + decode(rest),
        c != '&' ==> decode(seq![c] + rest) == seq![c] + decode(rest),
        !rest.contains(';') ==> decode(seq!['&'] + rest) == seq!['&'] + decode(rest),
{
    reveal_strlit("amp");
    reveal_strlit("lt");
    reveal_strlit("gt");
    reveal_strlit("quot");
    reveal_strlit("apos");
    reveal_strlit("nbsp");
    reveal_strlit("&amp;");
    reveal_strlit("&lt;");
    reveal_strlit("&gt;");
    reveal_strlit("&quot;");
    reveal_strlit("&apos;");
    reveal_strlit("&nbsp;");
    reveal_strlit("&#39;");
    reveal_strlit("&#x27;");
    assert("amp"@[0] == 'a' && "amp"@.len() == 3 && "lt"@[0] == 'l' && "gt"@[0] == 'g');
    assert("quot"@[0] == 'q' && "apos"@[0] == 'a' && "apos"@.len() == 4 && "nbsp"@[0] == 'n');
    assert("&amp;"@ + rest == seq!['&'] + "amp"@ + seq![';'] + rest);
    assert("&lt;"@ + rest == seq!['&'] + "lt"@ + seq![';'] + rest);
    assert("&gt;"@ + rest == seq!['&'] + "gt"@ + seq![';'] + rest);
    assert("&quot;"@ + rest == seq!['&'] + "quot"@ + seq![';'] + rest);
    assert("&apos;"@ + rest == seq!['&'] + "apos"@ + seq![';'] + rest);
    assert("&nbsp;"@ + rest == seq!['&'] + "nbsp"@ + seq![';'] + rest);
    let dec = seq!['#', '3', '9'];
    let hex = seq!['#', 'x', '2', '7'];
    assert("&#39;"@ + rest == seq!['&'] + dec + seq![';'] + rest);
    assert("&#x27;"@ + rest == seq!['&'] + hex + seq![';'] + rest);
    lemma_reference("amp"@, rest);
    lemma_reference("lt"@, rest);
    lemma_reference("gt"@, rest);
    lemma_reference("quot"@, rest);
    lemma_reference("apos"@, rest);
    lemma_reference("nbsp"@, rest);
    assert(dec[0] == '#' && hex[0] == '#');
    lemma_reference(dec, rest);
    lemma_reference(hex, rest);
    assert(dec.drop_first() == seq!['3', '9']);
    assert(hex.drop_first() == seq!['x', '2', '7']);
    assert(hex.drop_first().drop_first() == seq!['2', '7']);
    lemma_two_digits('3', '9', 10, 3, 9);
    lemma_two_digits('2', '7', 16, 2, 7);
    assert((seq![c] + rest).drop_first() == rest);
    assert((seq!['&'] + rest).drop_first() == rest);
    if !rest.contains(';') {
        let s = seq!['&'] + rest;
        assert forall|j: int| 0 <= j < s.len() implies (#[trigger] s[j]) != ';' by {
            if j > 0 {
                assert(rest.contains(rest[j - 1]));
            }
        }
        lemma_find_char_is(s, ';', s.len() as int);
    }
}

proof fn lemma_two_digits(a: char, b: char, radix: nat, x: nat, y: nat)
    requires
        crate::text::digit_value(a, radix) == Some(x),
        crate::text::digit_value(b, radix) == Some(y),
        a != '+',
    ensures
        crate::text::digits_value(seq![a, b], radix) == Some(x * radix + y),
{
    let s = seq![a, b];
    assert(s.drop_last() == seq![a]);
    assert(seq![a].drop_last() == Seq::<char>::empty());
    reveal_with_fuel(crate::text::digits_value, 3);
    assert(0 * radix == 0) by (nonlinear_arith);
}

// ---- what is no link ------------------------------------------------------------

/// A link behind a user's id leads to no message: it gets no label. Neither does a
/// link to anything that is no user and no room.
pub proof fn law_other_permalinks_get_no_label(
    dir: Directory,
    id: Seq<char>,
    event: Seq<char>,
    query: Seq<char>,
)
    requires
        path_part(id),
        path_part(event),
        query.len() == 0 || query[0] == '?',
    ensures
        id[0] == '@' ==> pill_label(
            dir,
            "https://matrix.to/#/"@ + id + seq!['/'] + event + query,
        ) is None,
        id[0] != '@' && id[0] != '!' && id[0] != '#' ==> pill_label(
            dir,
            "https://matrix.to/#/"@ + id + query,
        ) is None,
{
    lemma_matrix_to(id, event, query);
}

/// What looks like a room name but names no domain stays text: there is no dot in
/// its server, or no colon behind its first part, or no first part.
pub proof fn law_names_without_domain_stay_text(
    a: Seq<char>,
    local: Seq<char>,
    server: Seq<char>,
    b: Seq<char>,
)
    requires
        alias_local(local),
        !server.contains('.'),
        forall|i: int|
            0 <= i < server.len() ==> !is_ascii_space(#[trigger] server[i]) && server[i] != '<'
                && server[i] != '>' && server[i] != '/' && server[i] != '#',
        forall|i: int|
            0 <= i < a.len() ==> (#[trigger] a[i]) != '#' && a[i] != '<' && a[i] != '>',
        forall|i: int|
            0 <= i < b.len() ==> (#[trigger] b[i]) != '#' && b[i] != '<' && b[i] != '>',
        b.len() == 0 || is_ascii_space(b[0]) || b[0] == '/',
    ensures
        aliases_linked(a + (seq!['#'] + local + seq![':'] + server) + b) == a + (seq!['#'] + local + seq![
            ':',
        ] + server) + b,
        aliases_linked(a + (seq!['#'] + local) + b) == a + (seq!['#'] + local) + b,
        aliases_linked(a + seq!['#'] + b) == a + seq!['#'] + b,
{
    let name = seq!['#'] + local + seq![':'] + server;
    let s = a + name + b;
    let i = a.len() as int;
    let j = i + 1 + local.len();
    let k = i + name.len();
    assert(s[i] == '#');
    assert(s[j] == ':');
    assert forall|x: int| i + 1 <= x < j implies is_ascii_alnum(#[trigger] s[x]) || s[x] == '_' || s[x]
        == '.' || s[x] == '-' by {
        assert(s[x] == local[x - i - 1]);
    }
    lemma_local_end_is(s, i + 1, j);
    assert forall|x: int| j + 1 <= x < k implies !is_ascii_space(#[trigger] s[x]) && s[x] != '<' && s[x]
        != '>' && s[x] != '/' by {
        assert(s[x] == server[x - j - 1]);
    }
    if b.len() > 0 {
        assert(s[k] == b[0]);
    }
    lemma_server_end_is(s, j + 1, k);
    assert(s.subrange(j + 1, k) == server);
    assert(alias_at(s, i) is None);
    assert forall|x: int| i < x < s.len() implies (#[trigger] s[x]) != '#' by {
        if x < j {
            assert(s[x] == local[x - i - 1]);
        } else if j < x < k {
            assert(s[x] == server[x - j - 1]);
        } else if x >= k {
            assert(s[x] == b[x - k]);
        }
    }
    assert(s.take(i) == a);
    lemma_unnamed(s, a, i);

    let t = a + (seq!['#'] + local) + b;
    let e = i + 1 + local.len();
    assert(t[i] == '#');
    assert forall|x: int| i + 1 <= x < e implies is_ascii_alnum(#[trigger] t[x]) || t[x] == '_' || t[x]
        == '.' || t[x] == '-' by {
        assert(t[x] == local[x - i - 1]);
    }
    if b.len() > 0 {
        assert(t[e] == b[0]);
    }
    lemma_local_stops(t, i + 1, e);
    assert(alias_at(t, i) is None);
    assert forall|x: int| i < x < t.len() implies (#[trigger] t[x]) != '#' by {
        if x < e {
            assert(t[x] == local[x - i - 1]);
        } else {
            assert(t[x] == b[x - e]);
        }
    }
    assert(t.take(i) == a);
    lemma_unnamed(t, a, i);

    let u = a + seq!['#'] + b;
    assert(u[i] == '#');
    if b.len() > 0 {
        assert(u[i + 1] == b[0]);
    }
    lemma_local_stops(u, i + 1, i + 1);
    assert(alias_at(u, i) is None);
    assert forall|x: int| i < x < u.len() implies (#[trigger] u[x]) != '#' by {
        assert(u[x] == b[x - i - 1]);
    }
    assert(u.take(i) == a);
    lemma_unnamed(u, a, i);
}

proof fn lemma_local_stops(s: Seq<char>, i: int, e: int)
    requires
        0 <= i <= e <= s.len(),
        e < s.len() ==> is_ascii_space(s[e]) || s[e] == '/',
        forall|j: int|
            i <= j < e ==> is_ascii_alnum(#[trigger] s[j]) || s[j] == '_' || s[j] == '.' || s[j] == '-',
    ensures
        local_end(s, i) == e,
    decreases e - i,
{
    if i < e {
        assert(is_ascii_alnum(s[i]) || s[i] == '_' || s[i] == '.' || s[i] == '-');
        lemma_local_stops(s, i + 1, e);
    }
}

proof fn lemma_unnamed(s: Seq<char>, a: Seq<char>, i: int)
    requires
        i == a.len(),
        i < s.len(),
        s.take(i) == a,
        s[i] == '#',
        alias_at(s, i) is None,
        forall|j: int| 0 <= j < a.len() ==> (#[trigger] a[j]) != '#' && a[j] != '<' && a[j] != '>',
        forall|j: int| i < j < s.len() ==> (#[trigger] s[j]) != '#',
    ensures
        aliases_linked(s) == s,
{
    assert forall|j: int| 0 <= j < i implies (#[trigger] s[j]) != '#' && s[j] != '<' && s[j] != '>' by {
        assert(s.take(i)[j] == a[j]);
    }
    lemma_copied_until(s, 0, i, false);
    lemma_rest_copied(s, i + 1, false);
    assert(s == s.subrange(0, i) + (seq!['#'] + s.subrange(i + 1, s.len() as int)));
}

/// What stands behind a user's id, or behind a room without the sigil of a message,
/// is no link to a message.
pub proof fn law_other_links_are_no_message_links(id: Seq<char>, event: Seq<char>)
    requires
        path_part(id),
        path_part(event),
        is_ascii_alnum(event.last()),
    ensures
        id[0] != '!' && id[0] != '#' ==> event_link(
            "https://matrix.to/#/"@ + id + seq!['/'] + event,
        ) is None,
        event[0] != '$' ==> event_link("https://matrix.to/#/"@ + id + seq!['/'] + event) is None,
{
    let url = "https://matrix.to/#/"@ + id + seq!['/'] + event;
    lemma_matrix_to(id, event, Seq::empty());
    assert(url + Seq::<char>::empty() == url);
    assert(url.last() == event.last());
    assert(trim_trailing(url) == url);
}

} // verus!
