//! Links in message text: bare URLs, matrix.to permalinks and room aliases.

use vstd::prelude::*;
use crate::directory::{room_id_for_alias, room_name, Directory};
use crate::markdown::entities::push_markup_escape;
use crate::text::{char_is_ascii_alnum, char_is_ascii_space, char_is_space, chars_of, find_char_from, find_from,
    find_space_from, has_prefix, push_chars, push_str, replaced, slice_of, string_of};

verus! {

// ---- pills --------------------------------------------------------------------

/// Markup before the target of a pill-styled link.
pub open spec fn pill_open() -> Seq<char> {
    "<a href=\""@
}

/// Markup between the target and the text of a pill-styled link.
pub open spec fn pill_middle() -> Seq<char> {
    "\"><span foreground=\"#ffffff\" background=\"#26a269\" weight=\"bold\" underline=\"none\">\u{a0}"@
}

/// Markup after the text of a pill-styled link.
pub open spec fn pill_close() -> Seq<char> {
    "\u{a0}</span></a>"@
}

/// A pill-styled link to `href` that reads `body`.
pub open spec fn pill(href: Seq<char>, body: Seq<char>) -> Seq<char> {
    pill_open() + href + pill_middle() + body + pill_close()
}

/// Appends a pill-styled link. `body` is markup already.
fn push_pill(out: &mut Vec<char>, href: &Vec<char>, body: &Vec<char>)
    ensures
        final(out)@ == old(out)@ + pill(href@, body@),
{
    push_str(out, "<a href=\"");
    push_chars(out, href);
    push_str(
        out,
        "\"><span foreground=\"#ffffff\" background=\"#26a269\" weight=\"bold\" underline=\"none\">\u{a0}",
    );
    push_chars(out, body);
    push_str(out, "\u{a0}</span></a>");
    assert(out@ == old(out)@ + pill(href@, body@));
}

/// The markup of a pill-styled link.
pub fn render_pill_markup(href: &str, body_escaped: &str) -> (r: String)
    ensures
        r@ == pill(href@, body_escaped@),
{
    let h = chars_of(href);
    let b = chars_of(body_escaped);
    let mut out: Vec<char> = Vec::new();
    push_pill(&mut out, &h, &b);
    assert(out@ == pill(href@, body_escaped@));
    string_of(&out)
}

// ---- matrix.to ----------------------------------------------------------------

/// The name of the room that a room id or an alias leads to.
pub open spec fn resolved_name(dir: Directory, room: Seq<char>) -> Option<Seq<char>> {
    if dir.name_of(room) is Some {
        dir.name_of(room)
    } else if room.len() > 0 && room[0] == '#' && dir.alias_owner(room) is Some {
        dir.name_of(dir.alias_owner(room)->0)
    } else {
        None
    }
}

/// The name of the room that a room id or an alias leads to, if it is known.
pub fn resolve_room_name(dir: &Directory, room_id_or_alias: &str) -> (r: Option<String>)
    ensures
        match r {
            Some(n) => resolved_name(*dir, room_id_or_alias@) == Some(n@),
            None => resolved_name(*dir, room_id_or_alias@) is None,
        },
{
    if let Some(name) = room_name(dir, room_id_or_alias) {
        return Some(name);
    }
    let v = chars_of(room_id_or_alias);
    if v.len() > 0 && v[0] == '#' {
        if let Some(rid) = room_id_for_alias(dir, room_id_or_alias) {
            return room_name(dir, rid.as_str());
        }
    }
    None
}

/// A matrix.to URL taken apart: the room or user, and what follows it.
pub struct MatrixTo {
    pub room: Seq<char>,
    pub event: Option<Seq<char>>,
}

/// Percent-encoded `!` and `#` resolved.
pub open spec fn room_decoded(s: Seq<char>) -> Seq<char> {
    crate::text::replace(crate::text::replace(s, "%21"@, "!"@), "%23"@, "#"@)
}

/// The parts of a matrix.to URL; None for any other URL.  A query string is
/// dropped.
pub open spec fn matrix_to(url: Seq<char>) -> Option<MatrixTo> {
    let prefix = "https://matrix.to/#/"@;
    if crate::text::starts_with(url, prefix) {
        let rest = url.subrange(prefix.len() as int, url.len() as int);
        let path = rest.subrange(0, crate::text::find_char(rest, '?', 0));
        let slash = crate::text::find_char(path, '/', 0);
        Some(
            MatrixTo {
                room: room_decoded(path.subrange(0, slash)),
                event: if slash < path.len() {
                    Some(path.subrange(slash + 1, path.len() as int))
                } else {
                    None
                },
            },
        )
    } else {
        None
    }
}

pub open spec fn starts_char(s: Seq<char>, c: char) -> bool {
    s.len() > 0 && s[0] == c
}

/// The label of a matrix.to link; None when the URL is not one that gets a
/// pill.
pub open spec fn pill_label(dir: Directory, url: Seq<char>) -> Option<Seq<char>> {
    match matrix_to(url) {
        None => None,
        Some(m) => {
            let name = resolved_name(dir, m.room);
            if starts_char(m.room, '@') && m.event is None {
                Some(m.room)
            } else if !starts_char(m.room, '#') && !starts_char(m.room, '!') {
                None
            } else if m.event is None || m.event->0.len() == 0 {
                Some(
                    match name {
                        Some(n) => "# "@ + n,
                        None => m.room,
                    },
                )
            } else {
                Some(
                    match name {
                        Some(n) => "Comment linked to "@ + n,
                        None => "Linked comment"@,
                    },
                )
            }
        },
    }
}

fn decode_room(s: &Vec<char>) -> (r: Vec<char>)
    ensures
        r@ == room_decoded(s@),
{
    proof {
        reveal_strlit("%21");
        reveal_strlit("%23");
    }
    let a = replaced(s, "%21", "!");
    replaced(&a, "%23", "#")
}

/// The room part and the event part of a matrix.to URL.
fn split_matrix_to(url: &Vec<char>) -> (r: Option<(Vec<char>, Option<Vec<char>>)>)
    ensures
        match r {
            Some(p) => matrix_to(url@) == Some(
                MatrixTo {
                    room: p.0@,
                    event: match p.1 {
                        Some(e) => Some(e@),
                        None => None,
                    },
                },
            ),
            None => matrix_to(url@) is None,
        },
{
    let prefix = chars_of("https://matrix.to/#/");
    if !has_prefix(url, "https://matrix.to/#/") {
        return None;
    }
    let rest = slice_of(url, prefix.len(), url.len());
    let q: usize = find_char_from(&rest, '?', 0);
    let path = slice_of(&rest, 0, q);
    let slash: usize = find_char_from(&path, '/', 0);
    let room = decode_room(&slice_of(&path, 0, slash));
    if slash < path.len() {
        Some((room, Some(slice_of(&path, slash + 1, path.len()))))
    } else {
        Some((room, None))
    }
}

fn labelled(prefix: &str, name: &str) -> (r: String)
    ensures
        r@ == prefix@ + name@,
{
    let mut out = String::new();
    out.append(prefix);
    out.append(name);
    out
}

/// A compact label for a matrix.to URL; None for any other URL.
///
/// A user link reads as the user id, a room link as the room's name or else as the
/// alias or id that it holds, an event link as a comment in the room.
pub fn matrix_to_pill_text(dir: &Directory, url: &str) -> (r: Option<String>)
    ensures
        match r {
            Some(t) => pill_label(*dir, url@) == Some(t@),
            None => pill_label(*dir, url@) is None,
        },
{
    let v = chars_of(url);
    match split_matrix_to(&v) {
        None => None,
        Some((room, event)) => {
            if room.len() > 0 && room[0] == '@' && event.is_none() {
                return Some(string_of(&room));
            }
            let is_alias = room.len() > 0 && room[0] == '#';
            let is_id = room.len() > 0 && room[0] == '!';
            if !(is_alias || is_id) {
                return None;
            }
            let room_text = string_of(&room);
            let resolved = resolve_room_name(dir, room_text.as_str());
            let room_only = match &event {
                None => true,
                Some(e) => e.len() == 0,
            };
            if room_only {
                Some(
                    match resolved {
                        Some(name) => labelled("# ", name.as_str()),
                        None => room_text,
                    },
                )
            } else {
                Some(
                    match resolved {
                        Some(name) => labelled("Comment linked to ", name.as_str()),
                        None => "Linked comment".to_owned(),
                    },
                )
            }
        },
    }
}

// ---- URLs ---------------------------------------------------------------------

/// Whether `c` ends a URL.
pub open spec fn ends_url(c: char) -> bool {
    crate::text::is_space(c) || c == '<' || c == '>'
}

/// The end of the URL that starts at `i`.
pub open spec fn url_end(s: Seq<char>, i: int) -> int
    decreases s.len() - i,
{
    if i < 0 || i >= s.len() {
        s.len() as int
    } else if ends_url(s[i]) {
        i
    } else {
        url_end(s, i + 1)
    }
}

/// The markup of one URL.
pub open spec fn url_link(dir: Directory, url: Seq<char>) -> Seq<char> {
    match pill_label(dir, url) {
        Some(label) => pill(url, crate::markdown::entities::markup_escape(label)),
        None => "<a href=\""@ + url + "\">"@ + url + "</a>"@,
    }
}

pub open spec fn is_http(s: Seq<char>) -> bool {
    crate::text::starts_with(s, "https://"@) || crate::text::starts_with(s, "http://"@)
}

/// `s` with each http and https URL made a link.
pub open spec fn http_linked(dir: Directory, s: Seq<char>) -> Seq<char>
    decreases s.len(),
{
    let k = crate::text::find(s, "http"@, 0);
    if k + 4 > s.len() {
        s
    } else {
        proof {
            lemma_url_progress(s);
        }
        let candidate = s.subrange(k, s.len() as int);
        if is_http(candidate) {
            let e = url_end(candidate, 0);
            s.subrange(0, k) + url_link(dir, candidate.subrange(0, e)) + http_linked(
                dir,
                candidate.subrange(e, candidate.len() as int),
            )
        } else {
            s.subrange(0, k + 4) + http_linked(dir, s.subrange(k + 4, s.len() as int))
        }
    }
}

pub proof fn lemma_url_end(s: Seq<char>, i: int)
    requires
        0 <= i <= s.len(),
    ensures
        i <= url_end(s, i) <= s.len(),
    decreases s.len() - i,
{
    if i < s.len() {
        lemma_url_end(s, i + 1);
    }
}

/// A URL candidate is at least one character long.
pub proof fn lemma_url_progress(s: Seq<char>)
    requires
        crate::text::find(s, "http"@, 0) + 4 <= s.len(),
    ensures
        ({
            let k = crate::text::find(s, "http"@, 0);
            let candidate = s.subrange(k, s.len() as int);
            0 <= k && 0 < url_end(candidate, 0) <= candidate.len()
        }),
{
    crate::text::lemma_find(s, "http"@, 0);
    let k = crate::text::find(s, "http"@, 0);
    reveal_strlit("http");
    let candidate = s.subrange(k, s.len() as int);
    assert(s.subrange(k, k + 4)[0] == 'h');
    assert(candidate[0] == 'h');
    lemma_url_end(candidate, 1);
}

fn find_url_end(s: &Vec<char>, from: usize) -> (r: usize)
    requires
        from <= s.len(),
    ensures
        r == url_end(s@, from as int),
        from <= r <= s.len(),
{
    let mut i: usize = from;
    while i < s.len()
        invariant
            from <= i <= s.len(),
            url_end(s@, i as int) == url_end(s@, from as int),
        decreases s.len() - i,
    {
        let c = s[i];
        if char_is_space(c) || c == '<' || c == '>' {
            return i;
        }
        i = i + 1;
    }
    i
}

fn push_url_link(dir: &Directory, out: &mut Vec<char>, url: &Vec<char>)
    ensures
        final(out)@ == old(out)@ + url_link(*dir, url@),
{
    let text = string_of(url);
    match matrix_to_pill_text(dir, text.as_str()) {
        Some(label) => {
            let l = chars_of(label.as_str());
            let mut body: Vec<char> = Vec::new();
            push_markup_escape(&mut body, &l);
            assert(body@ == crate::markdown::entities::markup_escape(label@));
            push_pill(out, url, &body);
        },
        None => {
            push_str(out, "<a href=\"");
            push_chars(out, url);
            push_str(out, "\">");
            push_chars(out, url);
            push_str(out, "</a>");
            assert(out@ == old(out)@ + url_link(*dir, url@));
        },
    }
}

fn linkified_http(dir: &Directory, text: &Vec<char>) -> (r: Vec<char>)
    ensures
        r@ == http_linked(*dir, text@),
{
    let needle = chars_of("http");
    proof {
        reveal_strlit("http");
    }
    let mut out: Vec<char> = Vec::new();
    let mut rest: Vec<char> = slice_of(text, 0, text.len());
    assert(rest@ == text@);
    assert(out@ + http_linked(*dir, rest@) == http_linked(*dir, text@));
    loop
        invariant
            needle@ == "http"@,
            needle@.len() == 4,
            out@ + http_linked(*dir, rest@) == http_linked(*dir, text@),
        ensures
            http_linked(*dir, rest@) == rest@,
        decreases rest@.len(),
    {
        let k: usize = find_from(&rest, &needle, 0);
        if k >= rest.len() {
            break;
        }
        proof {
            lemma_url_progress(rest@);
        }
        let ghost before = out@;
        let candidate = slice_of(&rest, k, rest.len());
        if has_prefix(&candidate, "https://") || has_prefix(&candidate, "http://") {
            let e: usize = find_url_end(&candidate, 0);
            let url = slice_of(&candidate, 0, e);
            push_chars(&mut out, &slice_of(&rest, 0, k));
            push_url_link(dir, &mut out, &url);
            let next = slice_of(&candidate, e, candidate.len());
            assert(out@ + http_linked(*dir, next@) == before + (rest@.subrange(0, k as int)
                + url_link(*dir, url@) + http_linked(*dir, next@)));
            rest = next;
        } else {
            push_chars(&mut out, &slice_of(&rest, 0, k + 4));
            let next = slice_of(&rest, k + 4, rest.len());
            assert(out@ + http_linked(*dir, next@) == before + (rest@.subrange(0, k + 4)
                + http_linked(*dir, next@)));
            rest = next;
        }
    }
    push_chars(&mut out, &rest);
    out
}

// ---- aliases ------------------------------------------------------------------

/// Whether `c` may stand in the localpart of an alias.
pub open spec fn alias_char(c: char) -> bool {
    crate::text::is_ascii_alnum(c) || c == '_' || c == '.' || c == '-'
}

/// Whether `c` ends the server name of an alias.
pub open spec fn ends_server(c: char) -> bool {
    crate::text::is_ascii_space(c) || c == '<' || c == '>' || c == '/'
}

/// The end of the localpart that starts at `i`.
pub open spec fn local_end(s: Seq<char>, i: int) -> int
    decreases s.len() - i,
{
    if i < 0 || i >= s.len() {
        s.len() as int
    } else if alias_char(s[i]) {
        local_end(s, i + 1)
    } else {
        i
    }
}

/// The end of the server name that starts at `i`.
pub open spec fn server_end(s: Seq<char>, i: int) -> int
    decreases s.len() - i,
{
    if i < 0 || i >= s.len() {
        s.len() as int
    } else if ends_server(s[i]) {
        i
    } else {
        server_end(s, i + 1)
    }
}

/// The end of the room alias whose `#` stands at `i`, if one starts there: not
/// after a letter or digit, with a non-empty localpart, a `:`, and a server
/// name that holds a dot.
pub open spec fn alias_at(s: Seq<char>, i: int) -> Option<int> {
    let j = local_end(s, i + 1);
    let k = server_end(s, j + 1);
    if 0 <= i < s.len() && s[i] == '#' && (i == 0 || !crate::text::is_ascii_alnum(s[i - 1])) && j
        > i + 1 && j < s.len() && s[j] == ':' && s.subrange(j + 1, k).contains('.') {
        Some(k)
    } else {
        None
    }
}

pub proof fn lemma_local_end(s: Seq<char>, i: int)
    requires
        0 <= i <= s.len(),
    ensures
        i <= local_end(s, i) <= s.len(),
    decreases s.len() - i,
{
    if i < s.len() {
        lemma_local_end(s, i + 1);
    }
}

pub proof fn lemma_server_end(s: Seq<char>, i: int)
    requires
        0 <= i <= s.len(),
    ensures
        i <= server_end(s, i) <= s.len(),
    decreases s.len() - i,
{
    if i < s.len() {
        lemma_server_end(s, i + 1);
    }
}

/// An alias ends after it starts, inside the text.
pub proof fn lemma_alias_at(s: Seq<char>, i: int)
    ensures
        alias_at(s, i) is Some ==> i < alias_at(s, i)->0 <= s.len(),
{
    if alias_at(s, i) is Some {
        lemma_local_end(s, i + 1);
        lemma_server_end(s, local_end(s, i + 1) + 1);
    }
}

/// The alias that starts at `i`, by its end.
fn find_alias(s: &Vec<char>, i: usize) -> (r: Option<usize>)
    requires
        i < s.len(),
    ensures
        match r {
            Some(k) => alias_at(s@, i as int) == Some(k as int) && i < k <= s.len(),
            None => alias_at(s@, i as int) is None,
        },
{
    if s[i] != '#' || (i > 0 && char_is_ascii_alnum(s[i - 1])) {
        return None;
    }
    let mut j: usize = i + 1;
    while j < s.len() && (char_is_ascii_alnum(s[j]) || s[j] == '_' || s[j] == '.' || s[j] == '-')
        invariant
            i < j <= s.len(),
            local_end(s@, j as int) == local_end(s@, i + 1),
        decreases s.len() - j,
    {
        j = j + 1;
    }
    if j == i + 1 || j >= s.len() || s[j] != ':' {
        return None;
    }
    let mut k: usize = j + 1;
    let mut saw_dot = false;
    while k < s.len() && !(char_is_ascii_space(s[k]) || s[k] == '<' || s[k] == '>' || s[k] == '/')
        invariant
            j < k <= s.len(),
            server_end(s@, k as int) == server_end(s@, j + 1),
            saw_dot <==> s@.subrange(j + 1, k as int).contains('.'),
        decreases s.len() - k,
    {
        proof {
            let a = s@.subrange(j + 1, k as int);
            let b = s@.subrange(j + 1, k + 1);
            assert(b == a.push(s@[k as int]));
            if a.contains('.') {
                let p = choose|p: int| 0 <= p < a.len() && a[p] == '.';
                assert(b[p] == '.');
            }
            if s@[k as int] == '.' {
                assert(b[b.len() - 1] == '.');
            }
            if b.contains('.') && s@[k as int] != '.' {
                let p = choose|p: int| 0 <= p < b.len() && b[p] == '.';
                assert(a[p] == '.');
            }
        }
        if s[k] == '.' {
            saw_dot = true;
        }
        k = k + 1;
    }
    if saw_dot {
        Some(k)
    } else {
        None
    }
}

/// Whether an opening `<a` tag starts at `i`.
pub open spec fn anchor_opens(s: Seq<char>, i: int) -> bool {
    i + 2 < s.len() && s[i + 1] == 'a' && (s[i + 2] == ' ' || s[i + 2] == '>')
}

/// Whether a closing `</a>` tag starts at `i`.
pub open spec fn anchor_closes(s: Seq<char>, i: int) -> bool {
    i + 3 < s.len() && s[i + 1] == '/' && s[i + 2] == 'a' && s[i + 3] == '>'
}

/// The link that an alias becomes.
pub open spec fn alias_link(alias: Seq<char>) -> Seq<char> {
    pill("https://matrix.to/#/%23"@ + alias.drop_first(), alias)
}

/// `s[i..]` with the aliases that stand outside of tags and anchors made
/// links.  `depth` counts the anchors that are open; `run` says that the
/// character before was copied as plain text, which matters only below depth
/// zero, where a run of plain text is copied whole.
pub open spec fn alias_linked(s: Seq<char>, i: int, in_tag: bool, depth: int, run: bool) -> Seq<
    char,
>
    decreases s.len() - i,
{
    if i < 0 || i >= s.len() {
        Seq::empty()
    } else if s[i] == '<' {
        let d = depth + (if anchor_opens(s, i) {
            1int
        } else {
            0
        }) - (if anchor_closes(s, i) {
            1int
        } else {
            0
        });
        seq!['<'] + alias_linked(s, i + 1, true, d, false)
    } else if s[i] == '>' {
        seq!['>'] + alias_linked(s, i + 1, false, depth, false)
    } else if s[i] != '#' || in_tag || depth > 0 || (depth < 0 && run) {
        seq![s[i]] + alias_linked(s, i + 1, in_tag, depth, true)
    } else {
        match alias_at(s, i) {
            Some(k) => {
                if i < k && k <= s.len() {
                    alias_link(s.subrange(i, k)) + alias_linked(s, k, in_tag, depth, false)
                } else {
                    Seq::empty()
                }
            },
            None => seq!['#'] + alias_linked(s, i + 1, in_tag, depth, false),
        }
    }
}

/// `s` with the aliases outside of tags and anchors made links.
pub open spec fn aliases_linked(s: Seq<char>) -> Seq<char> {
    alias_linked(s, 0, false, 0, false)
}

fn push_alias_link(out: &mut Vec<char>, alias: &Vec<char>)
    requires
        alias@.len() > 0,
    ensures
        final(out)@ == old(out)@ + alias_link(alias@),
{
    let mut href = chars_of("https://matrix.to/#/%23");
    let bare = slice_of(alias, 1, alias.len());
    assert(bare@ == alias@.drop_first());
    push_chars(&mut href, &bare);
    push_pill(out, &href, alias);
}

fn linkified_aliases(s: &Vec<char>) -> (r: Vec<char>)
    ensures
        r@ == aliases_linked(s@),
{
    let mut out: Vec<char> = Vec::new();
    let mut i: usize = 0;
    let mut in_tag = false;
    let mut depth: i128 = 0;
    let mut run = false;
    assert(out@ + alias_linked(s@, 0, false, 0, false) == aliases_linked(s@));
    while i < s.len()
        invariant
            i <= s.len(),
            -(i as int) <= depth <= i,
            out@ + alias_linked(s@, i as int, in_tag, depth as int, run) == aliases_linked(s@),
        decreases s.len() - i,
    {
        let ghost before = out@;
        let ghost i0 = i as int;
        let ghost (tag0, depth0, run0) = (in_tag, depth as int, run);
        let c = s[i];
        let n: usize = s.len();
        if c == '<' {
            if n - i > 2 && s[i + 1] == 'a' && (s[i + 2] == ' ' || s[i + 2] == '>') {
                depth = depth + 1;
            }
            if n - i > 3 && s[i + 1] == '/' && s[i + 2] == 'a' && s[i + 3] == '>' {
                depth = depth - 1;
            }
            in_tag = true;
            run = false;
            out.push(c);
            i = i + 1;
            assert(out@ + alias_linked(s@, i as int, in_tag, depth as int, run) == before + (seq![c]
                + alias_linked(s@, i as int, in_tag, depth as int, run)));
        } else if c == '>' {
            in_tag = false;
            run = false;
            out.push(c);
            i = i + 1;
            assert(out@ + alias_linked(s@, i as int, in_tag, depth as int, run) == before + (seq![c]
                + alias_linked(s@, i as int, in_tag, depth as int, run)));
        } else if c != '#' || in_tag || depth > 0 || (depth < 0 && run) {
            run = true;
            out.push(c);
            i = i + 1;
            assert(out@ + alias_linked(s@, i as int, in_tag, depth as int, run) == before + (seq![c]
                + alias_linked(s@, i as int, in_tag, depth as int, run)));
        } else {
            run = false;
            match find_alias(s, i) {
                Some(k) => {
                    let alias = slice_of(s, i, k);
                    push_alias_link(&mut out, &alias);
                    i = k;
                    assert(out@ + alias_linked(s@, i as int, in_tag, depth as int, run) == before
                        + (alias_link(alias@) + alias_linked(
                        s@,
                        i as int,
                        in_tag,
                        depth as int,
                        run,
                    )));
                },
                None => {
                    out.push('#');
                    i = i + 1;
                    assert(out@ + alias_linked(s@, i as int, in_tag, depth as int, run) == before
                        + (seq!['#'] + alias_linked(s@, i as int, in_tag, depth as int, run)));
                },
            }
        }
    }
    assert(out@ + alias_linked(s@, i as int, in_tag, depth as int, run) == out@);
    out
}

/// `s` with its URLs and its aliases made links.
pub open spec fn linked(dir: Directory, s: Seq<char>) -> Seq<char> {
    aliases_linked(http_linked(dir, s))
}

/// The links of already escaped text, on characters.
pub fn linkified(dir: &Directory, text: &Vec<char>) -> (r: Vec<char>)
    ensures
        r@ == linked(*dir, text@),
{
    let a = linkified_http(dir, text);
    linkified_aliases(&a)
}

/// Makes the bare http and https URLs and the room aliases of already escaped
/// markup text links.
pub fn linkify_urls(dir: &Directory, text: &str) -> (r: String)
    ensures
        r@ == linked(*dir, text@),
{
    let v = chars_of(text);
    string_of(&linkified(dir, &v))
}

/// Makes the room aliases outside of tags and anchors links.
pub fn linkify_aliases(text: &str) -> (r: String)
    ensures
        r@ == aliases_linked(text@),
{
    let v = chars_of(text);
    string_of(&linkified_aliases(&v))
}

/// Makes the bare http and https URLs links.
pub fn linkify_http(dir: &Directory, text: &str) -> (r: String)
    ensures
        r@ == http_linked(*dir, text@),
{
    let v = chars_of(text);
    string_of(&linkified_http(dir, &v))
}

/// The spans of the aliases in `s[i..]`, left to right.
pub open spec fn alias_spans(s: Seq<char>, i: int) -> Seq<(int, int)>
    decreases s.len() - i,
{
    if i < 0 || i >= s.len() {
        Seq::empty()
    } else {
        match alias_at(s, i) {
            Some(k) => if i < k && k <= s.len() {
                seq![(i, k)] + alias_spans(s, k)
            } else {
                Seq::empty()
            },
            None => alias_spans(s, i + 1),
        }
    }
}

/// `items` followed by those of the spans' texts that are not there yet.
pub open spec fn add_new(
    items: Seq<Seq<char>>,
    s: Seq<char>,
    spans: Seq<(int, int)>,
) -> Seq<Seq<char>>
    decreases spans.len(),
{
    if spans.len() == 0 {
        items
    } else {
        let a = s.subrange(spans[0].0, spans[0].1);
        add_new(
            if items.contains(a) {
                items
            } else {
                items.push(a)
            },
            s,
            spans.drop_first(),
        )
    }
}

/// The aliases of `s`, each once, in order of first appearance.
pub open spec fn aliases_of(s: Seq<char>) -> Seq<Seq<char>> {
    add_new(Seq::empty(), s, alias_spans(s, 0))
}

fn holds(items: &Vec<String>, a: &str) -> (r: bool)
    ensures
        r == items@.map_values(|x: String| x@).contains(a@),
{
    let ghost view = items@.map_values(|x: String| x@);
    let mut i: usize = 0;
    while i < items.len()
        invariant
            i <= items.len(),
            view == items@.map_values(|x: String| x@),
            forall|j: int| 0 <= j < i ==> view[j] != a@,
        decreases items.len() - i,
    {
        if crate::text::same(items[i].as_str(), a) {
            assert(view[i as int] == a@);
            return true;
        }
        i = i + 1;
    }
    false
}

/// Every `#localpart:server.tld` alias of a message body, each once, in order
/// of first appearance.
pub fn extract_aliases(text: &str) -> (r: Vec<String>)
    ensures
        r@.map_values(|x: String| x@) == aliases_of(text@),
{
    let s = chars_of(text);
    let mut out: Vec<String> = Vec::new();
    let mut i: usize = 0;
    assert(out@.map_values(|x: String| x@) == Seq::<Seq<char>>::empty());
    while i < s.len()
        invariant
            i <= s.len(),
            s@ == text@,
            add_new(out@.map_values(|x: String| x@), s@, alias_spans(s@, i as int)) == aliases_of(
                s@,
            ),
        decreases s.len() - i,
    {
        match find_alias(&s, i) {
            Some(k) => {
                let alias = string_of(&slice_of(&s, i, k));
                let ghost before = out@.map_values(|x: String| x@);
                let ghost rest = alias_spans(s@, k as int);
                assert((seq![(i as int, k as int)] + rest).drop_first() == rest);
                if !holds(&out, alias.as_str()) {
                    out.push(alias);
                    assert(out@.map_values(|x: String| x@) == before.push(alias@));
                }
                i = k;
            },
            None => {
                i = i + 1;
            },
        }
    }
    out
}

// ---- event links --------------------------------------------------------------

/// Punctuation that may follow a URL in a sentence.
pub open spec fn is_trailing(c: char) -> bool {
    c == '.' || c == ',' || c == ')' || c == '!' || c == '?' || c == ';' || c == ':'
}

pub open spec fn trim_trailing(s: Seq<char>) -> Seq<char>
    decreases s.len(),
{
    if s.len() > 0 && is_trailing(s.last()) {
        trim_trailing(s.drop_last())
    } else {
        s
    }
}

/// The room and the event that a word links to, if it is an event link.
pub open spec fn event_link(word: Seq<char>) -> Option<(Seq<char>, Seq<char>)> {
    match matrix_to(trim_trailing(word)) {
        Some(m) => if m.event is Some && starts_char(m.event->0, '$') && (starts_char(m.room, '!')
            || starts_char(m.room, '#')) {
            Some((m.room, m.event->0))
        } else {
            None
        },
        None => None,
    }
}

/// The first event link among the white-space separated words of `s[i..]`.
pub open spec fn first_event_link(s: Seq<char>, i: int) -> Option<(Seq<char>, Seq<char>)>
    decreases s.len() - i,
{
    if i < 0 || i >= s.len() {
        None
    } else if crate::text::is_space(s[i]) {
        first_event_link(s, i + 1)
    } else {
        let e = crate::text::find_space(s, i);
        match event_link(s.subrange(i, e)) {
            Some(l) => Some(l),
            None => if i < e <= s.len() {
                first_event_link(s, e)
            } else {
                None
            },
        }
    }
}

fn trimmed_trailing(s: &Vec<char>) -> (r: Vec<char>)
    ensures
        r@ == trim_trailing(s@),
{
    let mut n: usize = s.len();
    assert(s@.subrange(0, s@.len() as int) == s@);
    while n > 0 && (s[n - 1] == '.' || s[n - 1] == ',' || s[n - 1] == ')' || s[n - 1] == '!' || s[n
        - 1] == '?' || s[n - 1] == ';' || s[n - 1] == ':')
        invariant
            n <= s.len(),
            trim_trailing(s@.subrange(0, n as int)) == trim_trailing(s@),
        decreases n,
    {
        assert(s@.subrange(0, n as int).drop_last() == s@.subrange(0, n - 1));
        n = n - 1;
    }
    slice_of(s, 0, n)
}

/// The room part and event id of the first matrix.to event link in `text`.
/// Room links, user links and other URLs are passed over.
pub fn extract_first_matrix_to_event_link(text: &str) -> (r: Option<(String, String)>)
    ensures
        match r {
            Some(p) => first_event_link(text@, 0) == Some((p.0@, p.1@)),
            None => first_event_link(text@, 0) is None,
        },
{
    let s = chars_of(text);
    let mut i: usize = 0;
    while i < s.len()
        invariant
            i <= s.len(),
            s@ == text@,
            first_event_link(s@, i as int) == first_event_link(s@, 0),
        decreases s.len() - i,
    {
        if char_is_space(s[i]) {
            i = i + 1;
        } else {
            let e: usize = find_space_from(&s, i);
            let word = slice_of(&s, i, e);
            let url = trimmed_trailing(&word);
            if let Some((room, Some(event))) = split_matrix_to(&url) {
                if event.len() > 0 && event[0] == '$' && room.len() > 0 && (room[0] == '!'
                    || room[0] == '#') {
                    return Some((string_of(&room), string_of(&event)));
                }
            }
            proof {
                crate::text::lemma_find_space(s@, i + 1);
            }
            i = e;
        }
    }
    None
}

// ---- laws ---------------------------------------------------------------------

/// `s[i..]` with the spans made links.
pub open spec fn spans_linked(s: Seq<char>, i: int, spans: Seq<(int, int)>) -> Seq<char>
    decreases spans.len(),
{
    if spans.len() == 0 {
        s.subrange(i, s.len() as int)
    } else {
        s.subrange(i, spans[0].0) + alias_link(s.subrange(spans[0].0, spans[0].1)) + spans_linked(
            s,
            spans[0].1,
            spans.drop_first(),
        )
    }
}

/// In text without tags, linking and extracting agree on what an alias is:
/// exactly the extracted spans become links, and all else is copied.
pub proof fn law_linked_are_extracted(s: Seq<char>)
    requires
        forall|j: int| 0 <= j < s.len() ==> s[j] != '<' && s[j] != '>',
    ensures
        aliases_linked(s) == spans_linked(s, 0, alias_spans(s, 0)),
{
    lemma_linked_from(s, 0, 0, false);
    assert(s.subrange(0, 0) + aliases_linked(s) == aliases_linked(s));
}

proof fn lemma_linked_from(s: Seq<char>, from: int, i: int, run: bool)
    requires
        0 <= from <= i <= s.len(),
        forall|j: int| 0 <= j < s.len() ==> s[j] != '<' && s[j] != '>',
    ensures
        s.subrange(from, i) + alias_linked(s, i, false, 0, run) == spans_linked(
            s,
            from,
            alias_spans(s, i),
        ),
    decreases s.len() - i,
{
    if i < s.len() {
        lemma_alias_at(s, i);
        match alias_at(s, i) {
            Some(k) => {
                lemma_linked_from(s, k, k, false);
                let rest = alias_spans(s, k);
                assert((seq![(i, k)] + rest).drop_first() == rest);
                assert(s.subrange(k, k) + alias_linked(s, k, false, 0, false) == alias_linked(
                    s,
                    k,
                    false,
                    0,
                    false,
                ));
                assert(s.subrange(from, i) + (alias_link(s.subrange(i, k)) + alias_linked(
                    s,
                    k,
                    false,
                    0,
                    false,
                )) == s.subrange(from, i) + alias_link(s.subrange(i, k)) + alias_linked(
                    s,
                    k,
                    false,
                    0,
                    false,
                ));
            },
            None => {
                let next_run = s[i] != '#';
                lemma_linked_from(s, from, i + 1, next_run);
                assert(s.subrange(from, i) + (seq![s[i]] + alias_linked(
                    s,
                    i + 1,
                    false,
                    0,
                    next_run,
                )) == s.subrange(from, i + 1) + alias_linked(s, i + 1, false, 0, next_run));
            },
        }
    } else {
        assert(s.subrange(from, i) + alias_linked(s, i, false, 0, run) == s.subrange(
            from,
            s.len() as int,
        ));
    }
}

/// No alias is listed twice.
pub proof fn law_aliases_unique(s: Seq<char>)
    ensures
        aliases_of(s).no_duplicates(),
{
    lemma_add_new_unique(Seq::empty(), s, alias_spans(s, 0));
}

proof fn lemma_add_new_unique(items: Seq<Seq<char>>, s: Seq<char>, spans: Seq<(int, int)>)
    requires
        items.no_duplicates(),
    ensures
        add_new(items, s, spans).no_duplicates(),
    decreases spans.len(),
{
    if spans.len() > 0 {
        let a = s.subrange(spans[0].0, spans[0].1);
        let next = if items.contains(a) {
            items
        } else {
            items.push(a)
        };
        assert(next.no_duplicates());
        lemma_add_new_unique(next, s, spans.drop_first());
    }
}

/// The markup that opens the link of an alias.
pub open spec fn alias_anchor(alias: Seq<char>) -> Seq<char> {
    "<a href=\""@ + "https://matrix.to/#/%23"@ + alias.drop_first() + "\">"@
}

/// The link of an alias starts with its anchor, and is longer than the alias.
proof fn lemma_alias_anchor(alias: Seq<char>)
    ensures
        crate::text::matches_at(alias_link(alias), alias_anchor(alias), 0),
        alias_link(alias).len() > alias.len(),
{
    reveal_strlit("<a href=\"");
    reveal_strlit("\">");
    reveal_strlit(
        "\"><span foreground=\"#ffffff\" background=\"#26a269\" weight=\"bold\" underline=\"none\">\u{a0}",
    );
    let href = "https://matrix.to/#/%23"@ + alias.drop_first();
    let l = alias_link(alias);
    let a = alias_anchor(alias);
    assert(l == pill_open() + href + pill_middle() + alias + pill_close());
    assert(a =~= pill_open() + href + "\">"@);
    let n = (pill_open() + href).len() as int;
    assert(pill_middle()[0] == '"' && pill_middle()[1] == '>');
    assert(l.subrange(0, a.len() as int) =~= a) by {
        assert forall|i: int| 0 <= i < a.len() implies l[i] == a[i] by {
            if i < n {
                assert(l[i] == (pill_open() + href)[i]);
                assert(a[i] == (pill_open() + href)[i]);
            } else {
                assert(l[i] == pill_middle()[i - n]);
                assert(a[i] == "\">"@[i - n]);
            }
        }
    }
}

proof fn lemma_matches_behind(u: Seq<char>, t: Seq<char>, v: Seq<char>, p: Seq<char>, j: int)
    requires
        crate::text::matches_at(t, p, j),
    ensures
        crate::text::matches_at(u + t + v, p, u.len() + j),
{
    let all = u + t + v;
    assert(all.subrange(u.len() + j, u.len() + j + p.len()) =~= t.subrange(j, j + p.len()));
}

/// Linking makes a text with aliases longer, and leaves any other as it is.
proof fn lemma_linked_len(s: Seq<char>, from: int, i: int)
    requires
        0 <= from <= i <= s.len(),
    ensures
        ({
            let spans = alias_spans(s, i);
            let l = spans_linked(s, from, spans);
            &&& spans.len() == 0 ==> l == s.subrange(from, s.len() as int)
            &&& spans.len() > 0 ==> l.len() > s.len() - from
        }),
    decreases s.len() - i,
{
    if i < s.len() {
        lemma_alias_at(s, i);
        match alias_at(s, i) {
            Some(k) => {
                let rest = alias_spans(s, k);
                assert((seq![(i, k)] + rest).drop_first() == rest);
                lemma_linked_len(s, k, k);
                lemma_alias_anchor(s.subrange(i, k));
            },
            None => {
                lemma_linked_len(s, from, i + 1);
            },
        }
    }
}

/// Each span that is made a link leaves its anchor in the text.
proof fn lemma_span_has_anchor(s: Seq<char>, from: int, spans: Seq<(int, int)>, k: int)
    requires
        0 <= k < spans.len(),
    ensures
        exists|j: int| #[trigger]
            crate::text::matches_at(
                spans_linked(s, from, spans),
                alias_anchor(s.subrange(spans[k].0, spans[k].1)),
                j,
            ),
    decreases spans.len(),
{
    let head = s.subrange(from, spans[0].0);
    let link = alias_link(s.subrange(spans[0].0, spans[0].1));
    let rest = spans_linked(s, spans[0].1, spans.drop_first());
    let p = alias_anchor(s.subrange(spans[k].0, spans[k].1));
    let all = spans_linked(s, from, spans);
    assert(all == head + link + rest);
    if k == 0 {
        lemma_alias_anchor(s.subrange(spans[0].0, spans[0].1));
        lemma_matches_behind(head, link, rest, p, 0);
        assert(crate::text::matches_at(all, p, head.len() as int));
    } else {
        lemma_span_has_anchor(s, spans[0].1, spans.drop_first(), k - 1);
        assert(spans.drop_first()[k - 1] == spans[k]);
        let j = choose|j: int| #[trigger] crate::text::matches_at(rest, p, j);
        lemma_matches_behind(head + link, rest, Seq::empty(), p, j);
        assert(head + link + rest + Seq::<char>::empty() =~= all);
        assert(crate::text::matches_at(all, p, (head + link).len() + j));
    }
}

/// Every listed alias was there before or is the text of a span.
proof fn lemma_add_new_from(items: Seq<Seq<char>>, s: Seq<char>, spans: Seq<(int, int)>, a: Seq<char>)
    requires
        add_new(items, s, spans).contains(a),
    ensures
        items.contains(a) || exists|k: int|
            0 <= k < spans.len() && s.subrange((#[trigger] spans[k]).0, spans[k].1) == a,
    decreases spans.len(),
{
    if spans.len() > 0 {
        let b = s.subrange(spans[0].0, spans[0].1);
        let next = if items.contains(b) {
            items
        } else {
            items.push(b)
        };
        lemma_add_new_from(next, s, spans.drop_first(), a);
        if next.contains(a) {
            if !items.contains(a) {
                assert(a == b);
                assert(s.subrange(spans[0].0, spans[0].1) == a);
            }
        } else {
            let k = choose|k: int|
                0 <= k < spans.drop_first().len() && s.subrange(
                    (#[trigger] spans.drop_first()[k]).0,
                    spans.drop_first()[k].1,
                ) == a;
            assert(spans[k + 1] == spans.drop_first()[k]);
            assert(s.subrange(spans[k + 1].0, spans[k + 1].1) == a);
        }
    }
}

/// What is listed once stays listed, and the text of every span is listed.
proof fn lemma_add_new_holds(items: Seq<Seq<char>>, s: Seq<char>, spans: Seq<(int, int)>)
    ensures
        add_new(items, s, spans).len() >= items.len(),
        spans.len() > 0 ==> add_new(items, s, spans).len() > 0,
    decreases spans.len(),
{
    if spans.len() > 0 {
        let a = s.subrange(spans[0].0, spans[0].1);
        let next = if items.contains(a) {
            items
        } else {
            items.push(a)
        };
        lemma_add_new_holds(next, s, spans.drop_first());
    }
}

/// Linking and extracting agree on what an alias is. Text without tags is left as
/// it is exactly when no alias is extracted from it, and otherwise holds the anchor
/// of each extracted alias.
pub proof fn law_extracted_are_anchored(s: Seq<char>)
    requires
        forall|j: int| 0 <= j < s.len() ==> s[j] != '<' && s[j] != '>',
    ensures
        aliases_linked(s) == s <==> aliases_of(s).len() == 0,
        forall|a: Seq<char>| #[trigger]
            aliases_of(s).contains(a) ==> crate::text::contains(aliases_linked(s), alias_anchor(a)),
{
    let spans = alias_spans(s, 0);
    law_linked_are_extracted(s);
    lemma_linked_len(s, 0, 0);
    assert(s.subrange(0, s.len() as int) =~= s);
    lemma_add_new_holds(Seq::empty(), s, spans);
    assert forall|a: Seq<char>| #[trigger] aliases_of(s).contains(a) implies crate::text::contains(
        aliases_linked(s),
        alias_anchor(a),
    ) by {
        lemma_add_new_from(Seq::empty(), s, spans, a);
        let k = choose|k: int|
            0 <= k < spans.len() && s.subrange((#[trigger] spans[k]).0, spans[k].1) == a;
        lemma_span_has_anchor(s, 0, spans, k);
        let j = choose|j: int| #[trigger]
            crate::text::matches_at(aliases_linked(s), alias_anchor(a), j);
        crate::text::lemma_find(aliases_linked(s), alias_anchor(a), 0);
        reveal_strlit("\">");
        assert(alias_anchor(a).len() > 0);
    }
}

} // verus!
