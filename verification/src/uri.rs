//! Matrix links that are opened from outside.

use vstd::prelude::*;
use crate::text::{chars_of, find_char_from, has_prefix, number_of, slice_of, string_of};

verus! {

/// What the lossy UTF-8 decoder makes of bytes.
pub uninterp spec fn lossy_text(bytes: Seq<u8>) -> Seq<char>;

/// `String::from_utf8_lossy`: a function of the bytes, which on valid UTF-8
/// gives the text that the bytes encode.
#[verifier::external_body]
fn decode_lossy(bytes: &Vec<u8>) -> (r: String)
    ensures
        r@ == lossy_text(bytes@),
        vstd::utf8::valid_utf8(bytes@) ==> r@ == vstd::utf8::decode_utf8(bytes@),
{
    String::from_utf8_lossy(bytes).into_owned()
}

/// The byte that two hexadecimal characters stand for. A `+` may stand in
/// place of the first digit.
pub open spec fn hex_byte(a: u8, b: u8) -> Option<nat> {
    if a < 128 && b < 128 {
        crate::text::parse_number(seq![a as char, b as char], 16, 255)
    } else {
        None
    }
}

/// `bytes[i..]` with percent escapes resolved. An escape that is not followed
/// by two hexadecimal digits, or that ends the text too early, stays.
pub open spec fn unescaped(bytes: Seq<u8>, i: int) -> Seq<u8>
    decreases bytes.len() - i,
{
    if i < 0 || i >= bytes.len() {
        Seq::empty()
    } else if bytes[i] == 37 && i + 2 < bytes.len() && hex_byte(bytes[i + 1], bytes[i + 2]) is Some {
        seq![hex_byte(bytes[i + 1], bytes[i + 2])->0 as u8] + unescaped(bytes, i + 3)
    } else {
        seq![bytes[i]] + unescaped(bytes, i + 1)
    }
}

/// `s` with its percent escapes resolved.
pub open spec fn percent_decoded(s: Seq<char>) -> Seq<char> {
    lossy_text(unescaped(vstd::utf8::encode_utf8(s), 0))
}

fn read_hex(a: u8, b: u8) -> (r: Option<u8>)
    ensures
        match r {
            Some(v) => hex_byte(a, b) == Some(v as nat),
            None => hex_byte(a, b) is None,
        },
{
    if a >= 128 || b >= 128 {
        return None;
    }
    let mut pair: Vec<char> = Vec::new();
    pair.push(a as char);
    pair.push(b as char);
    assert(pair@ == seq![a as char, b as char]);
    match number_of(&pair, 16, 255) {
        Some(v) => Some(v as u8),
        None => None,
    }
}

/// The bytes of `s` with its percent escapes resolved.
pub fn unescape(s: &str) -> (r: Vec<u8>)
    ensures
        r@ == unescaped(vstd::utf8::encode_utf8(s@), 0),
{
    let bytes = s.as_bytes();
    let ghost all = vstd::utf8::encode_utf8(s@);
    let mut out: Vec<u8> = Vec::new();
    let mut i: usize = 0;
    assert(out@ + unescaped(all, 0) == unescaped(all, 0));
    while i < bytes.len()
        invariant
            i <= bytes.len(),
            bytes@ == all,
            out@ + unescaped(all, i as int) == unescaped(all, 0),
        decreases bytes.len() - i,
    {
        let ghost before = out@;
        let mut done = false;
        let ghost i0 = i as int;
        if bytes[i] == 37 && bytes.len() - i > 2 {
            if let Some(v) = read_hex(bytes[i + 1], bytes[i + 2]) {
                out.push(v);
                i = i + 3;
                done = true;
                assert(out@ + unescaped(all, i as int) == before + (seq![v] + unescaped(
                    all,
                    i as int,
                )));
            }
        }
        if !done {
            out.push(bytes[i]);
            i = i + 1;
            assert(out@ + unescaped(all, i as int) == before + (seq![all[i0]] + unescaped(
                all,
                i as int,
            )));
        }
    }
    assert(out@ + unescaped(all, i as int) == out@);
    out
}

/// `s` with its percent escapes resolved.
pub fn percent_decode(s: &str) -> (r: String)
    ensures
        r@ == percent_decoded(s@),
{
    let bytes = unescape(s);
    decode_lossy(&bytes)
}

/// `s` up to a query string.
pub open spec fn without_query(s: Seq<char>) -> Seq<char> {
    s.subrange(0, crate::text::find_char(s, '?', 0))
}

/// `s` with its first `/` made a `:`.
pub open spec fn slash_to_colon(s: Seq<char>) -> Seq<char> {
    let k = crate::text::find_char(s, '/', 0);
    if k < s.len() {
        s.update(k, ':')
    } else {
        s
    }
}

/// The rest of `s` behind the prefix `p`.
pub open spec fn after_prefix(s: Seq<char>, p: Seq<char>) -> Option<Seq<char>> {
    if crate::text::starts_with(s, p) {
        Some(s.subrange(p.len() as int, s.len() as int))
    } else {
        None
    }
}

/// The id behind a `matrix.to` link, once its escapes are resolved: only rooms
/// and aliases count.
pub open spec fn room_link(id: Seq<char>) -> Option<Seq<char>> {
    if id.len() > 0 && (id[0] == '!' || id[0] == '#') {
        Some(id)
    } else {
        None
    }
}

/// The room that a link leads to.
pub open spec fn linked_room(uri: Seq<char>) -> Option<Seq<char>> {
    if after_prefix(uri, "matrix:r/"@) is Some {
        Some(seq!['#'] + slash_to_colon(without_query(after_prefix(uri, "matrix:r/"@)->0)))
    } else if after_prefix(uri, "matrix:roomid/"@) is Some {
        let id = slash_to_colon(without_query(after_prefix(uri, "matrix:roomid/"@)->0));
        Some(
            if id.len() > 0 && id[0] == '!' {
                id
            } else {
                seq!['!'] + id
            },
        )
    } else if after_prefix(uri, "https://matrix.to/#/"@) is Some {
        room_link(
            percent_decoded(without_query(after_prefix(uri, "https://matrix.to/#/"@)->0)),
        )
    } else {
        None
    }
}

fn strip(uri: &Vec<char>, prefix: &str) -> (r: Option<Vec<char>>)
    ensures
        match r {
            Some(rest) => after_prefix(uri@, prefix@) == Some(rest@),
            None => after_prefix(uri@, prefix@) is None,
        },
{
    if has_prefix(uri, prefix) {
        let p = chars_of(prefix);
        Some(slice_of(uri, p.len(), uri.len()))
    } else {
        None
    }
}

fn path_of(rest: &Vec<char>) -> (r: Vec<char>)
    ensures
        r@ == without_query(rest@),
{
    let q: usize = find_char_from(rest, '?', 0);
    slice_of(rest, 0, q)
}

fn colon_for_slash(s: Vec<char>) -> (r: Vec<char>)
    ensures
        r@ == slash_to_colon(s@),
{
    let k: usize = find_char_from(&s, '/', 0);
    let mut out = s;
    if k < out.len() {
        out.set(k, ':');
    }
    out
}

/// The room that a decoded `matrix.to` id names, if it names one.
pub fn room_of_link(id: String) -> (r: Option<String>)
    ensures
        crate::json::text_of(r) == room_link(id@),
{
    let v = chars_of(id.as_str());
    if v.len() > 0 && (v[0] == '!' || v[0] == '#') {
        Some(id)
    } else {
        None
    }
}

/// The room id or alias behind a `matrix:` URI or a `matrix.to` link:
///
/// - `matrix:r/alias/server` gives `#alias:server`
/// - `matrix:roomid/!id/server` gives `!id:server`
/// - `https://matrix.to/#/!roomid:server` gives `!roomid:server`
/// - `https://matrix.to/#/#alias:server` gives `#alias:server`
pub fn parse_matrix_uri(uri: &str) -> (r: Option<String>)
    ensures
        crate::json::text_of(r) == linked_room(uri@),
{
    let u = chars_of(uri);
    if let Some(rest) = strip(&u, "matrix:r/") {
        let id = colon_for_slash(path_of(&rest));
        let mut out: Vec<char> = Vec::new();
        out.push('#');
        crate::text::push_chars(&mut out, &id);
        assert(out@ == seq!['#'] + id@);
        return Some(string_of(&out));
    }
    if let Some(rest) = strip(&u, "matrix:roomid/") {
        let id = colon_for_slash(path_of(&rest));
        if id.len() > 0 && id[0] == '!' {
            return Some(string_of(&id));
        }
        let mut out: Vec<char> = Vec::new();
        out.push('!');
        crate::text::push_chars(&mut out, &id);
        assert(out@ == seq!['!'] + id@);
        return Some(string_of(&out));
    }
    if let Some(rest) = strip(&u, "https://matrix.to/#/") {
        let path = string_of(&path_of(&rest));
        return room_of_link(percent_decode(path.as_str()));
    }
    None
}

/// Text without a percent sign is its own decoding.
pub proof fn law_nothing_to_decode(bytes: Seq<u8>, i: int)
    requires
        0 <= i <= bytes.len(),
        forall|j: int| 0 <= j < bytes.len() ==> bytes[j] != 37,
    ensures
        unescaped(bytes, i) == bytes.subrange(i, bytes.len() as int),
    decreases bytes.len() - i,
{
    if i < bytes.len() {
        law_nothing_to_decode(bytes, i + 1);
        assert(seq![bytes[i]] + bytes.subrange(i + 1, bytes.len() as int) == bytes.subrange(
            i,
            bytes.len() as int,
        ));
    }
}

/// Whether a text may stand as one part of a link's path.
pub open spec fn path_part(s: Seq<char>) -> bool {
    forall|i: int| 0 <= i < s.len() ==> (#[trigger] s[i]) != '/' && s[i] != '?'
}

proof fn lemma_char_at(s: Seq<char>, c: char, k: int)
    requires
        0 <= k <= s.len(),
        k < s.len() ==> s[k] == c,
        forall|j: int| 0 <= j < k ==> (#[trigger] s[j]) != c,
    ensures
        crate::text::find_char(s, c, 0) == k,
{
    crate::text::lemma_find_char(s, c, 0);
    let f = crate::text::find_char(s, c, 0);
    if f < k {
        assert(s[f] != c);
    } else if f > k {
        assert(s[k] != c);
    }
}

proof fn lemma_path(local: Seq<char>, server: Seq<char>, query: Seq<char>)
    requires
        path_part(local),
        path_part(server),
        query.len() == 0 || query[0] == '?',
    ensures
        slash_to_colon(without_query(local + seq!['/'] + server + query)) == local + seq![':'] + server,
{
    let path = local + seq!['/'] + server;
    let whole = local + seq!['/'] + server + query;
    assert(whole == path + query);
    assert forall|j: int| 0 <= j < path.len() implies (#[trigger] whole[j]) != '?' by {
        if j < local.len() {
            assert(whole[j] == local[j]);
        } else if j > local.len() {
            assert(whole[j] == server[j - local.len() - 1]);
        }
    }
    lemma_char_at(whole, '?', path.len() as int);
    assert(whole.subrange(0, path.len() as int) == path);
    assert forall|j: int| 0 <= j < local.len() implies (#[trigger] path[j]) != '/' by {
        assert(path[j] == local[j]);
    }
    assert(path[local.len() as int] == '/');
    lemma_char_at(path, '/', local.len() as int);
    assert(path.update(local.len() as int, ':') == local + seq![':'] + server);
}

/// A link to an alias leads to the alias, and a link to a room id to the room,
/// whether or not the link holds the sigil of the id; a query does not count.
pub proof fn law_room_links_lead_to_rooms(local: Seq<char>, server: Seq<char>, query: Seq<char>)
    requires
        path_part(local),
        path_part(server),
        local.len() > 0,
        local[0] != '!',
        query.len() == 0 || query[0] == '?',
    ensures
        linked_room("matrix:r/"@ + local + seq!['/'] + server + query) == Some(
            seq!['#'] + local + seq![':'] + server,
        ),
        linked_room("matrix:roomid/"@ + local + seq!['/'] + server + query) == Some(
            seq!['!'] + local + seq![':'] + server,
        ),
        linked_room("matrix:roomid/"@ + (seq!['!'] + local) + seq!['/'] + server + query) == Some(
            seq!['!'] + local + seq![':'] + server,
        ),
{
    reveal_strlit("matrix:r/");
    reveal_strlit("matrix:roomid/");
    let short = "matrix:r/"@;
    let long = "matrix:roomid/"@;
    assert(short.len() == 9 && short[8] == '/' && long.len() == 14 && long[8] == 'o');
    let rest = local + seq!['/'] + server + query;
    lemma_path(local, server, query);
    assert(short + local + seq!['/'] + server + query == short + rest);
    assert((short + rest).subrange(0, 9) == short);
    assert((short + rest).subrange(9, (short + rest).len() as int) == rest);
    assert(seq!['#'] + (local + seq![':'] + server) == seq!['#'] + local + seq![':'] + server);
    assert(long + local + seq!['/'] + server + query == long + rest);
    assert((long + rest).subrange(0, 14) == long);
    assert((long + rest).subrange(14, (long + rest).len() as int) == rest);
    assert(!crate::text::starts_with(long + rest, short)) by {
        if crate::text::starts_with(long + rest, short) {
            assert((long + rest).subrange(0, 9)[8] == short[8]);
        }
    }
    let id = local + seq![':'] + server;
    assert(id[0] == local[0]);
    assert(seq!['!'] + id == seq!['!'] + local + seq![':'] + server);
    let full = seq!['!'] + local;
    assert forall|i: int| 0 <= i < full.len() implies (#[trigger] full[i]) != '/' && full[i] != '?' by {
        if i > 0 {
            assert(full[i] == local[i - 1]);
        }
    }
    lemma_path(full, server, query);
    let more = full + seq!['/'] + server + query;
    assert(long + full + seq!['/'] + server + query == long + more);
    assert((long + more).subrange(0, 14) == long);
    assert((long + more).subrange(14, (long + more).len() as int) == more);
    assert(!crate::text::starts_with(long + more, short)) by {
        if crate::text::starts_with(long + more, short) {
            assert((long + more).subrange(0, 9)[8] == short[8]);
        }
    }
    assert((full + seq![':'] + server)[0] == '!');
}

/// On the web a link leads to a room or an alias; a link to anything else, such as
/// a user, leads to no room.
pub proof fn law_web_links_lead_to_rooms(id: Seq<char>)
    ensures
        id.len() > 0 && (id[0] == '!' || id[0] == '#') ==> room_link(id) == Some(id),
        id.len() > 0 && id[0] == '@' ==> room_link(id) is None,
        id.len() == 0 ==> room_link(id) is None,
        linked_room(id) is Some ==> crate::text::starts_with(id, "matrix:r/"@)
            || crate::text::starts_with(id, "matrix:roomid/"@) || crate::text::starts_with(
            id,
            "https://matrix.to/#/"@,
        ),
{
}

/// The hexadecimal digit of a number below sixteen, in small or capital letters.
pub open spec fn hex_code(d: nat, capital: bool) -> u8 {
    if d < 10 {
        (48 + d) as u8
    } else if capital {
        (55 + d) as u8
    } else {
        (87 + d) as u8
    }
}

/// An escaped byte stands for the byte, whether its digits are written in small or
/// in capital letters.
pub proof fn law_escapes_stand_for_bytes(v: u8, capital: bool, rest: Seq<u8>)
    ensures
        ({
            let a = hex_code((v / 16) as nat, capital);
            let b = hex_code((v % 16) as nat, capital);
            &&& hex_byte(a, b) == Some(v as nat)
            &&& unescaped(seq![37u8, a, b] + rest, 0) == seq![v] + unescaped(rest, 0)
        }),
        v != 37 ==> unescaped(seq![v] + rest, 0) == seq![v] + unescaped(rest, 0),
{
    let a = hex_code((v / 16) as nat, capital);
    let b = hex_code((v % 16) as nat, capital);
    let s = seq![a as char, b as char];
    assert(s.drop_last() == seq![a as char]);
    assert(seq![a as char].drop_last() == Seq::<char>::empty());
    reveal_with_fuel(crate::text::digits_value, 3);
    assert(crate::text::digit_value(a as char, 16) == Some((v / 16) as nat));
    assert(crate::text::digit_value(b as char, 16) == Some((v % 16) as nat));
    assert(s[0] != '+');
    let whole = seq![37u8, a, b] + rest;
    lemma_shifted(whole, rest, 3, 0);
    assert(whole[0] == 37 && whole[1] == a && whole[2] == b);
    let one = seq![v] + rest;
    lemma_shifted(one, rest, 1, 0);
    assert(one[0] == v);
}

proof fn lemma_shifted(whole: Seq<u8>, rest: Seq<u8>, n: int, i: int)
    requires
        0 <= n,
        0 <= i <= rest.len(),
        whole.len() == n + rest.len(),
        forall|j: int| 0 <= j < rest.len() ==> whole[n + j] == #[trigger] rest[j],
    ensures
        unescaped(whole, n + i) == unescaped(rest, i),
    decreases rest.len() - i,
{
    if i < rest.len() {
        assert(whole[n + i] == rest[i]);
        if i + 2 < rest.len() {
            assert(whole[n + (i + 1)] == rest[i + 1]);
            assert(whole[n + (i + 2)] == rest[i + 2]);
            lemma_shifted(whole, rest, n, i + 3);
        }
        lemma_shifted(whole, rest, n, i + 1);
    }
}

} // verus!
