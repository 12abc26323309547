//! Attachments: their types, and the names of the files that they are stored in.

use vstd::prelude::*;

use crate::matrix::event::MatrixEvent;
use crate::text::{
    alphanumeric, chars_eq, chars_of, contains, has_prefix, hexadecimal, lowercase, push_hex, push_str, same,
    slice_of, starts_with, str_contains, str_starts_with, string_of, string_of_range,
};

verus! {

/// Where the segment of a path that ends at `n` begins.
pub open spec fn segment_start(s: Seq<char>, n: int) -> int
    decreases n,
{
    if n <= 0 || s[n - 1] == '/' {
        n
    } else {
        segment_start(s, n - 1)
    }
}

/// The last component of the first `n` characters of a path. Empty segments and
/// single dots do not count; there is none at the root or behind two dots.
pub open spec fn last_component(s: Seq<char>, n: int) -> Option<Seq<char>>
    decreases n,
{
    let b = segment_start(s, n);
    let segment = s.subrange(b, n);
    if n <= 0 || b > n || b < 0 {
        None
    } else if segment.len() == 0 || segment == "."@ {
        if b == 0 {
            None
        } else {
            last_component(s, b - 1)
        }
    } else if segment == ".."@ {
        None
    } else {
        Some(segment)
    }
}

/// The last dot among the first `n` characters; -1 if there is none.
pub open spec fn last_dot(s: Seq<char>, n: int) -> int
    decreases n,
{
    if n <= 0 {
        -1
    } else if s[n - 1] == '.' {
        n - 1
    } else {
        last_dot(s, n - 1)
    }
}

/// The extension of a file name: what follows the last dot, unless the name
/// begins with it.
pub open spec fn extension(name: Seq<char>) -> Option<Seq<char>> {
    let d = last_dot(name, name.len() as int);
    if name == ".."@ || d <= 0 {
        None
    } else {
        Some(name.skip(d + 1))
    }
}

proof fn lemma_segment_start(s: Seq<char>, n: int)
    requires
        0 <= n <= s.len(),
    ensures
        0 <= segment_start(s, n) <= n,
        segment_start(s, n) > 0 ==> s[segment_start(s, n) - 1] == '/',
        forall|i: int| segment_start(s, n) <= i < n ==> (#[trigger] s[i]) != '/',
    decreases n,
{
    if n > 0 && s[n - 1] != '/' {
        lemma_segment_start(s, n - 1);
    }
}

proof fn lemma_last_dot(s: Seq<char>, n: int)
    requires
        0 <= n <= s.len(),
    ensures
        -1 <= last_dot(s, n) < n,
    decreases n,
{
    if n > 0 && s[n - 1] != '.' {
        lemma_last_dot(s, n - 1);
    }
}

fn find_segment(s: &Vec<char>, n: usize) -> (b: usize)
    requires
        n <= s@.len(),
    ensures
        b == segment_start(s@, n as int),
        b <= n,
{
    let mut b: usize = n;
    while b > 0 && s[b - 1] != '/'
        invariant
            b <= n <= s@.len(),
            segment_start(s@, n as int) == segment_start(s@, b as int),
        decreases b,
    {
        b = b - 1;
    }
    b
}

/// The last component of a path.
fn component(s: &Vec<char>) -> (r: Option<Vec<char>>)
    ensures
        (match r {
            Some(v) => Some(v@),
            None => None,
        }) == last_component(s@, s@.len() as int),
{
    let mut n: usize = s.len();
    while n > 0
        invariant
            n <= s@.len(),
            last_component(s@, s@.len() as int) == last_component(s@, n as int),
        decreases n,
    {
        let b: usize = find_segment(s, n);
        proof {
            lemma_segment_start(s@, n as int);
        }
        let segment = slice_of(s, b, n);
        if segment.len() == 0 || chars_eq(&segment, ".") {
            if b == 0 {
                return None;
            }
            n = b - 1;
        } else if chars_eq(&segment, "..") {
            return None;
        } else {
            return Some(segment);
        }
    }
    None
}

fn find_dot(s: &Vec<char>) -> (r: Option<usize>)
    ensures
        match r {
            Some(i) => last_dot(s@, s@.len() as int) == i && i < s@.len(),
            None => last_dot(s@, s@.len() as int) < 0,
        },
{
    let mut n: usize = s.len();
    while n > 0
        invariant
            n <= s@.len(),
            last_dot(s@, s@.len() as int) == last_dot(s@, n as int),
        decreases n,
    {
        if s[n - 1] == '.' {
            return Some(n - 1);
        }
        n = n - 1;
    }
    None
}

fn extension_of(name: &Vec<char>) -> (r: Option<Vec<char>>)
    ensures
        (match r {
            Some(v) => Some(v@),
            None => None,
        }) == extension(name@),
{
    if chars_eq(name, "..") {
        return None;
    }
    let n: usize = name.len();
    match find_dot(name) {
        Some(d) => if d > 0 {
            let e = slice_of(name, d + 1, n);
            assert(e@ =~= name@.skip(d + 1));
            Some(e)
        } else {
            None
        },
        None => None,
    }
}

/// Whether the bytes stand at a position.
pub open spec fn bytes_at(data: Seq<u8>, at: int, magic: Seq<u8>) -> bool {
    at + magic.len() <= data.len() && data.subrange(at, at + magic.len()) == magic
}

/// The type of a file by its first bytes.
pub open spec fn sniffed(data: Seq<u8>) -> Option<Seq<char>> {
    if bytes_at(data, 0, seq![0x89u8, 0x50u8, 0x4eu8, 0x47u8]) {
        Some("png"@)
    } else if bytes_at(data, 0, seq![0xffu8, 0xd8u8, 0xffu8]) {
        Some("jpg"@)
    } else if bytes_at(data, 0, seq![0x47u8, 0x49u8, 0x46u8, 0x38u8]) {
        Some("gif"@)
    } else if bytes_at(data, 0, seq![0x52u8, 0x49u8, 0x46u8, 0x46u8]) && bytes_at(
        data,
        8,
        seq![0x57u8, 0x45u8, 0x42u8, 0x50u8],
    ) {
        Some("webp"@)
    } else if data.len() >= 12 && bytes_at(data, 4, seq![0x66u8, 0x74u8, 0x79u8, 0x70u8]) {
        Some("mp4"@)
    } else if bytes_at(data, 0, seq![0x1au8, 0x45u8, 0xdfu8, 0xa3u8]) {
        Some("webm"@)
    } else if bytes_at(data, 0, seq![0x4fu8, 0x67u8, 0x67u8, 0x53u8]) {
        Some("ogg"@)
    } else if bytes_at(data, 0, seq![0x25u8, 0x50u8, 0x44u8, 0x46u8]) {
        Some("pdf"@)
    } else {
        None
    }
}

fn four_at(data: &Vec<u8>, at: usize, a: u8, b: u8, c: u8, d: u8) -> (r: bool)
    requires
        at <= 8,
    ensures
        r == bytes_at(data@, at as int, seq![a, b, c, d]),
{
    if data.len() < at + 4 {
        return false;
    }
    let ghost part = data@.subrange(at as int, at + 4);
    assert(part[0] == data@[at as int] && part[1] == data@[at + 1] && part[2] == data@[at + 2]
        && part[3] == data@[at + 3]);
    if data[at] == a && data[at + 1] == b && data[at + 2] == c && data[at + 3] == d {
        assert(part =~= seq![a, b, c, d]);
        true
    } else {
        assert(part != seq![a, b, c, d]) by {
            if part == seq![a, b, c, d] {
                assert(part[0] == a && part[1] == b && part[2] == c && part[3] == d);
            }
        }
        false
    }
}

/// The extension that the first bytes of a file call for; None for an unknown
/// format.
pub fn sniff_extension(data: &Vec<u8>) -> (r: Option<&'static str>)
    ensures
        (match r {
            Some(s) => Some(s@),
            None => None,
        }) == sniffed(data@),
{
    if four_at(data, 0, 0x89, 0x50, 0x4e, 0x47) {
        return Some("png");
    }
    let jpg: bool = data.len() >= 3 && data[0] == 0xff && data[1] == 0xd8 && data[2] == 0xff;
    proof {
        let magic = seq![0xffu8, 0xd8u8, 0xffu8];
        if data@.len() >= 3 {
            let part = data@.subrange(0, 3);
            assert(part[0] == data@[0] && part[1] == data@[1] && part[2] == data@[2]);
            if jpg {
                assert(part =~= magic);
            } else if part == magic {
                assert(magic[0] == 0xff && magic[1] == 0xd8 && magic[2] == 0xff);
            }
        }
        assert(jpg == bytes_at(data@, 0, magic));
    }
    if jpg {
        return Some("jpg");
    }
    if four_at(data, 0, 0x47, 0x49, 0x46, 0x38) {
        return Some("gif");
    }
    if four_at(data, 0, 0x52, 0x49, 0x46, 0x46) && four_at(data, 8, 0x57, 0x45, 0x42, 0x50) {
        return Some("webp");
    }
    if data.len() >= 12 && four_at(data, 4, 0x66, 0x74, 0x79, 0x70) {
        return Some("mp4");
    }
    if four_at(data, 0, 0x1a, 0x45, 0xdf, 0xa3) {
        return Some("webm");
    }
    if four_at(data, 0, 0x4f, 0x67, 0x67, 0x53) {
        return Some("ogg");
    }
    if four_at(data, 0, 0x25, 0x50, 0x44, 0x46) {
        return Some("pdf");
    }
    None
}

/// A character as it may stand in a file name.
pub open spec fn safe_file_char(c: char) -> char {
    if alphanumeric(c) || c == '.' || c == '-' || c == '_' {
        c
    } else {
        '_'
    }
}

/// A text without the dots and underscores that it begins with.
pub open spec fn without_lead(s: Seq<char>) -> Seq<char>
    decreases s.len(),
{
    if s.len() > 0 && (s[0] == '.' || s[0] == '_') {
        without_lead(s.skip(1))
    } else {
        s
    }
}

/// The name of an attachment, reduced to one safe path component.
pub open spec fn safe_base(filename: Seq<char>) -> Seq<char> {
    let base = match last_component(filename, filename.len() as int) {
        Some(c) => c,
        None => filename,
    };
    let name = without_lead(base.map_values(|c: char| safe_file_char(c)));
    if name.len() == 0 {
        "media"@
    } else {
        name
    }
}

/// The name of an attachment with the extension that its content calls for.
pub open spec fn media_filename(filename: Seq<char>, data: Seq<u8>) -> Seq<char> {
    let name = safe_base(filename);
    match sniffed(data) {
        None => name,
        Some(found) => match extension(name) {
            None => name + "."@ + found,
            Some(current) => if lowercase(current) == found {
                name
            } else {
                name.take(last_dot(name, name.len() as int)) + "."@ + found
            },
        },
    }
}

fn safe_name(filename: &str) -> (r: Vec<char>)
    ensures
        r@ == safe_base(filename@),
        r@.len() > 0,
        r@[0] != '.',
        !r@.contains('/'),
{
    let whole = chars_of(filename);
    let base: Vec<char> = match component(&whole) {
        Some(c) => c,
        None => whole,
    };
    let mut name: Vec<char> = Vec::new();
    let mut i: usize = 0;
    while i < base.len()
        invariant
            i <= base@.len(),
            name@.len() == i,
            forall|j: int| 0 <= j < i ==> (#[trigger] name@[j]) == safe_file_char(base@[j]),
            forall|j: int| 0 <= j < i ==> (#[trigger] name@[j]) != '/',
        decreases base@.len() - i,
    {
        let c: char = base[i];
        let ok: bool = c.is_alphanumeric() || c == '.' || c == '-' || c == '_';
        name.push(
            if ok {
                c
            } else {
                '_'
            },
        );
        i = i + 1;
    }
    assert(name@ =~= base@.map_values(|c: char| safe_file_char(c)));
    let mut k: usize = 0;
    assert(name@.skip(0) =~= name@);
    while k < name.len() && (name[k] == '.' || name[k] == '_')
        invariant
            k <= name@.len(),
            without_lead(name@) == without_lead(name@.skip(k as int)),
        decreases name@.len() - k,
    {
        assert(name@.skip(k as int).skip(1) =~= name@.skip(k + 1));
        k = k + 1;
    }
    let rest = slice_of(&name, k, name.len());
    assert(rest@ =~= name@.skip(k as int));
    if rest.len() == 0 {
        proof {
            reveal_strlit("media");
        }
        chars_of("media")
    } else {
        assert forall|j: int| 0 <= j < rest@.len() implies (#[trigger] rest@[j]) != '/' by {
            assert(rest@[j] == name@[j + k]);
        }
        rest
    }
}

/// A safe local name for a downloaded attachment: one path component, which is
/// not hidden, with the extension that the content calls for.
pub fn sanitize_media_filename(filename: &str, data: &Vec<u8>) -> (r: String)
    ensures
        r@ == media_filename(filename@, data@),
        r@.len() > 0,
        r@[0] != '.',
        !r@.contains('/'),
{
    let name = safe_name(filename);
    proof {
        lemma_last_dot(name@, name@.len() as int);
    }
    match sniff_extension(data) {
        None => string_of(&name),
        Some(found) => {
            let current: Option<Vec<char>> = extension_of(&name);
            let mut out: Vec<char> = match current {
                None => name,
                Some(e) => {
                    let lower = string_of(&e).as_str().to_lowercase();
                    if same(&lower, found) {
                        return string_of(&name);
                    }
                    match find_dot(&name) {
                        Some(d) => {
                            let stem = slice_of(&name, 0, d);
                            assert(stem@ =~= name@.take(d as int));
                            stem
                        },
                        None => name,
                    }
                },
            };
            let ghost stem = out@;
            assert forall|j: int| 0 <= j < stem.len() implies (#[trigger] stem[j]) != '/' by {
                assert(stem[j] == name@[j]);
                assert(name@.contains(name@[j]));
            }
            push_str(&mut out, ".");
            push_str(&mut out, found);
            proof {
                lemma_known_extension(data@, found@);
                reveal_strlit(".");
                assert(out@ == stem + "."@ + found@);
                assert forall|j: int| 0 <= j < out@.len() implies (#[trigger] out@[j]) != '/' by {
                    if j < stem.len() {
                        assert(out@[j] == stem[j]);
                    } else if j == stem.len() {
                        assert(out@[j] == "."@[0]);
                    } else {
                        assert(out@[j] == found@[j - stem.len() - 1]);
                    }
                }
            }
            string_of(&out)
        },
    }
}

proof fn lemma_known_extension(data: Seq<u8>, e: Seq<char>)
    requires
        sniffed(data) == Some(e),
    ensures
        forall|i: int| 0 <= i < e.len() ==> (#[trigger] e[i]) != '/',
{
    reveal_strlit("png");
    reveal_strlit("jpg");
    reveal_strlit("gif");
    reveal_strlit("webp");
    reveal_strlit("mp4");
    reveal_strlit("webm");
    reveal_strlit("ogg");
    reveal_strlit("pdf");
}

/// The media type of a file by the extension of its name.
pub open spec fn media_type(ext: Option<Seq<char>>) -> Seq<char> {
    match ext {
        None => "application/octet-stream"@,
        Some(e) => if e == "png"@ {
            "image/png"@
        } else if e == "jpg"@ || e == "jpeg"@ {
            "image/jpeg"@
        } else if e == "gif"@ {
            "image/gif"@
        } else if e == "webp"@ {
            "image/webp"@
        } else if e == "svg"@ {
            "image/svg+xml"@
        } else if e == "mp4"@ {
            "video/mp4"@
        } else if e == "webm"@ {
            "video/webm"@
        } else if e == "mov"@ {
            "video/quicktime"@
        } else if e == "mp3"@ {
            "audio/mpeg"@
        } else if e == "ogg"@ {
            "audio/ogg"@
        } else if e == "wav"@ {
            "audio/wav"@
        } else if e == "flac"@ {
            "audio/flac"@
        } else if e == "pdf"@ {
            "application/pdf"@
        } else {
            "application/octet-stream"@
        },
    }
}

/// The name and the media type of a file that is about to be sent.
pub fn outgoing_file(path: &str) -> (r: (String, String))
    ensures
        ({
            let name = last_component(path@, path@.len() as int);
            &&& r.0@ == (match name {
                Some(n) => n,
                None => "file"@,
            })
            &&& r.1@ == media_type(
                match name {
                    Some(n) => extension(n),
                    None => None,
                },
            )
        }),
{
    let whole = chars_of(path);
    match component(&whole) {
        None => ("file".to_owned(), "application/octet-stream".to_owned()),
        Some(name) => {
            let kind: &'static str = match extension_of(&name) {
                None => "application/octet-stream",
                Some(e) => if chars_eq(&e, "png") {
                    "image/png"
                } else if chars_eq(&e, "jpg") || chars_eq(&e, "jpeg") {
                    "image/jpeg"
                } else if chars_eq(&e, "gif") {
                    "image/gif"
                } else if chars_eq(&e, "webp") {
                    "image/webp"
                } else if chars_eq(&e, "svg") {
                    "image/svg+xml"
                } else if chars_eq(&e, "mp4") {
                    "video/mp4"
                } else if chars_eq(&e, "webm") {
                    "video/webm"
                } else if chars_eq(&e, "mov") {
                    "video/quicktime"
                } else if chars_eq(&e, "mp3") {
                    "audio/mpeg"
                } else if chars_eq(&e, "ogg") {
                    "audio/ogg"
                } else if chars_eq(&e, "wav") {
                    "audio/wav"
                } else if chars_eq(&e, "flac") {
                    "audio/flac"
                } else if chars_eq(&e, "pdf") {
                    "application/pdf"
                } else {
                    "application/octet-stream"
                },
            };
            (string_of(&name), kind.to_owned())
        },
    }
}

/// How an attachment is got.
#[derive(Debug)]
pub enum Download {
    /// It is already on disk.
    Ready { event: MatrixEvent },
    /// It is fetched from the web.
    Web,
    /// It is fetched from the homeserver, by its media source as JSON.
    Source,
    /// It is fetched from the homeserver, by its content URI.
    Uri,
}

/// Decides how an attachment is got.
pub fn plan_download(url: &str, source_json: &str) -> (r: Download)
    ensures
        match r {
            Download::Ready { event } => starts_with(url@, "file://"@) && (
            event matches MatrixEvent::MediaReady { url: u, path } && u@ == url@ && path@
                == url@.skip("file://"@.len() as int)),
            Download::Web => !starts_with(url@, "file://"@) && (starts_with(url@, "https://"@)
                || starts_with(url@, "http://"@)),
            Download::Source => source_json@.len() > 0,
            Download::Uri => source_json@.len() == 0,
        },
        starts_with(url@, "file://"@) ==> r is Ready,
        !starts_with(url@, "file://"@) && (starts_with(url@, "https://"@) || starts_with(
            url@,
            "http://"@,
        )) ==> r is Web,
{
    let v = chars_of(url);
    if has_prefix(&v, "file://") {
        proof {
            reveal_strlit("file://");
        }
        let path = string_of_range(&v, 7, v.len());
        assert(path@ =~= url@.skip(7));
        return Download::Ready { event: MatrixEvent::MediaReady { url: url.to_owned(), path } };
    }
    if str_starts_with(url, "https://") || str_starts_with(url, "http://") {
        return Download::Web;
    }
    if source_json.is_empty() {
        Download::Uri
    } else {
        Download::Source
    }
}

/// The number of bytes of a text.
pub open spec fn byte_len(s: Seq<char>) -> nat
    decreases s.len(),
{
    if s.len() == 0 {
        0
    } else {
        let c = s.last() as u32;
        byte_len(s.drop_last()) + (if c < 0x80 {
            1nat
        } else if c < 0x800 {
            2
        } else if c < 0x10000 {
            3
        } else {
            4
        })
    }
}

/// The extension for an attachment from the web: by its content type, or else by
/// the end of its address.
pub open spec fn web_extension(content_type: Seq<char>, url: Seq<char>) -> Seq<char> {
    let tail = url.skip(last_dot(url, url.len() as int) + 1);
    if contains(content_type, "gif"@) {
        "gif"@
    } else if contains(content_type, "png"@) {
        "png"@
    } else if contains(content_type, "webp"@) {
        "webp"@
    } else if contains(content_type, "mp4"@) {
        "mp4"@
    } else if contains(content_type, "webm"@) {
        "webm"@
    } else if contains(content_type, "jpeg"@) || contains(content_type, "jpg"@) {
        "jpg"@
    } else if byte_len(tail) <= 4 {
        tail
    } else {
        "gif"@
    }
}

fn is_short(v: &Vec<char>) -> (r: bool)
    ensures
        r == (byte_len(v@) <= 4),
{
    let mut n: usize = 0;
    let mut i: usize = 0;
    assert(v@.take(0) =~= Seq::<char>::empty());
    while i < v.len()
        invariant
            i <= v@.len(),
            n <= 4,
            n == byte_len(v@.take(i as int)),
        decreases v@.len() - i,
    {
        proof {
            assert(v@.take(i + 1).drop_last() =~= v@.take(i as int));
            assert(v@.take(i + 1).last() == v@[i as int]);
            lemma_byte_len(v@, i + 1);
        }
        let c: u32 = v[i] as u32;
        n = n + (if c < 0x80 {
            1usize
        } else if c < 0x800 {
            2
        } else if c < 0x10000 {
            3
        } else {
            4
        });
        if n > 4 {
            return false;
        }
        i = i + 1;
    }
    assert(v@.take(i as int) =~= v@);
    true
}

proof fn lemma_byte_len(s: Seq<char>, n: int)
    requires
        0 <= n <= s.len(),
    ensures
        byte_len(s.take(n)) <= byte_len(s),
    decreases s.len(),
{
    if n == s.len() {
        assert(s.take(n) =~= s);
    } else {
        lemma_byte_len(s.drop_last(), n);
        assert(s.drop_last().take(n) =~= s.take(n));
    }
}

/// The name of the file for an attachment from the web. `hash` is a hash of the
/// address, which keeps the names apart.
pub fn web_file_name(hash: u64, content_type: &str, url: &str) -> (r: String)
    ensures
        r@ == hexadecimal(hash as nat) + "."@ + web_extension(content_type@, url@),
{
    let v = chars_of(url);
    let from: usize = match find_dot(&v) {
        Some(d) => d + 1,
        None => 0,
    };
    let tail = slice_of(&v, from, v.len());
    proof {
        lemma_last_dot(url@, url@.len() as int);
        assert(tail@ =~= url@.skip(last_dot(url@, url@.len() as int) + 1));
    }
    let mut out: Vec<char> = Vec::new();
    push_hex(&mut out, hash);
    push_str(&mut out, ".");
    let ext: String = if str_contains(content_type, "gif") {
        "gif".to_owned()
    } else if str_contains(content_type, "png") {
        "png".to_owned()
    } else if str_contains(content_type, "webp") {
        "webp".to_owned()
    } else if str_contains(content_type, "mp4") {
        "mp4".to_owned()
    } else if str_contains(content_type, "webm") {
        "webm".to_owned()
    } else if str_contains(content_type, "jpeg") || str_contains(content_type, "jpg") {
        "jpg".to_owned()
    } else if is_short(&tail) {
        string_of(&tail)
    } else {
        "gif".to_owned()
    };
    push_str(&mut out, &ext);
    assert(out@ =~= hexadecimal(hash as nat) + "."@ + web_extension(content_type@, url@));
    string_of(&out)
}

/// The name of the file for an avatar. `hash` is a hash of its content URI.
pub fn avatar_file_name(hash: u64) -> (r: String)
    ensures
        r@ == hexadecimal(hash as nat) + ".jpg"@,
{
    let mut out: Vec<char> = Vec::new();
    push_hex(&mut out, hash);
    push_str(&mut out, ".jpg");
    assert(out@ =~= hexadecimal(hash as nat) + ".jpg"@);
    string_of(&out)
}

proof fn lemma_bytes_at(data: Seq<u8>, at: int, magic: Seq<u8>)
    requires
        0 <= at,
    ensures
        bytes_at(data, at, magic) <==> at + magic.len() <= data.len() && forall|i: int|
            0 <= i < magic.len() ==> data[at + i] == #[trigger] magic[i],
{
    if at + magic.len() <= data.len() {
        let part = data.subrange(at, at + magic.len());
        if forall|i: int| 0 <= i < magic.len() ==> data[at + i] == #[trigger] magic[i] {
            assert(part == magic);
        }
        if part == magic {
            assert forall|i: int| 0 <= i < magic.len() implies data[at + i] == #[trigger] magic[i] by {
                assert(part[i] == data[at + i]);
            }
        }
    }
}

/// A file that begins with the signature of a format has the extension of that
/// format, whatever follows; a mark of a video container is looked for before the
/// last three.
pub proof fn law_formats_are_known_by_signature(rest: Seq<u8>, size: Seq<u8>)
    requires
        size.len() == 4,
    ensures
        sniffed(seq![0x89u8, 0x50, 0x4e, 0x47] + rest) == Some("png"@),
        sniffed(seq![0xffu8, 0xd8, 0xff] + rest) == Some("jpg"@),
        sniffed(seq![0x47u8, 0x49, 0x46, 0x38] + rest) == Some("gif"@),
        sniffed(seq![0x52u8, 0x49, 0x46, 0x46] + size + seq![0x57u8, 0x45, 0x42, 0x50] + rest)
            == Some("webp"@),
        sniffed(seq![0u8, 0, 0, 0x18, 0x66, 0x74, 0x79, 0x70] + size + rest) == Some("mp4"@),
        rest.len() == 0 || rest[0] != 0x66 ==> {
            &&& sniffed(seq![0x1au8, 0x45, 0xdf, 0xa3] + rest) == Some("webm"@)
            &&& sniffed(seq![0x4fu8, 0x67, 0x67, 0x53] + rest) == Some("ogg"@)
            &&& sniffed(seq![0x25u8, 0x50, 0x44, 0x46] + rest) == Some("pdf"@)
        },
        data_starts_unknown(rest) ==> sniffed(rest) is None,
{
    lemma_signatures(seq![0x89u8, 0x50, 0x4e, 0x47] + rest);
    lemma_signatures(seq![0xffu8, 0xd8, 0xff] + rest);
    lemma_signatures(seq![0x47u8, 0x49, 0x46, 0x38] + rest);
    let webp = seq![0x52u8, 0x49, 0x46, 0x46] + size + seq![0x57u8, 0x45, 0x42, 0x50] + rest;
    lemma_signatures(webp);
    assert(webp[0] == 0x52 && webp[1] == 0x49 && webp[2] == 0x46 && webp[3] == 0x46);
    assert(webp[8] == 0x57 && webp[9] == 0x45 && webp[10] == 0x42 && webp[11] == 0x50);
    lemma_signatures(seq![0u8, 0, 0, 0x18, 0x66, 0x74, 0x79, 0x70] + size + rest);
    lemma_signatures(seq![0x1au8, 0x45, 0xdf, 0xa3] + rest);
    lemma_signatures(seq![0x4fu8, 0x67, 0x67, 0x53] + rest);
    lemma_signatures(seq![0x25u8, 0x50, 0x44, 0x46] + rest);
    lemma_signatures(rest);
}

/// Whether a file begins with no byte that begins a signature, and is too short for
/// a video container.
pub open spec fn data_starts_unknown(data: Seq<u8>) -> bool {
    data.len() < 12 && (data.len() == 0 || (data[0] != 0x89 && data[0] != 0xff && data[0] != 0x47
        && data[0] != 0x1a && data[0] != 0x4f && data[0] != 0x25))
}

proof fn lemma_signatures(data: Seq<u8>)
    ensures
        bytes_at(data, 0, seq![0x89u8, 0x50, 0x4e, 0x47]) <==> data.len() >= 4 && data[0] == 0x89
            && data[1] == 0x50 && data[2] == 0x4e && data[3] == 0x47,
        bytes_at(data, 0, seq![0xffu8, 0xd8, 0xff]) <==> data.len() >= 3 && data[0] == 0xff
            && data[1] == 0xd8 && data[2] == 0xff,
        bytes_at(data, 0, seq![0x47u8, 0x49, 0x46, 0x38]) <==> data.len() >= 4 && data[0] == 0x47
            && data[1] == 0x49 && data[2] == 0x46 && data[3] == 0x38,
        bytes_at(data, 0, seq![0x52u8, 0x49, 0x46, 0x46]) <==> data.len() >= 4 && data[0] == 0x52
            && data[1] == 0x49 && data[2] == 0x46 && data[3] == 0x46,
        bytes_at(data, 8, seq![0x57u8, 0x45, 0x42, 0x50]) <==> data.len() >= 12 && data[8] == 0x57
            && data[9] == 0x45 && data[10] == 0x42 && data[11] == 0x50,
        bytes_at(data, 4, seq![0x66u8, 0x74, 0x79, 0x70]) <==> data.len() >= 8 && data[4] == 0x66
            && data[5] == 0x74 && data[6] == 0x79 && data[7] == 0x70,
        bytes_at(data, 0, seq![0x1au8, 0x45, 0xdf, 0xa3]) <==> data.len() >= 4 && data[0] == 0x1a
            && data[1] == 0x45 && data[2] == 0xdf && data[3] == 0xa3,
        bytes_at(data, 0, seq![0x4fu8, 0x67, 0x67, 0x53]) <==> data.len() >= 4 && data[0] == 0x4f
            && data[1] == 0x67 && data[2] == 0x67 && data[3] == 0x53,
        bytes_at(data, 0, seq![0x25u8, 0x50, 0x44, 0x46]) <==> data.len() >= 4 && data[0] == 0x25
            && data[1] == 0x50 && data[2] == 0x44 && data[3] == 0x46,
{
    lemma_four(data, 0, 0x89, 0x50, 0x4e, 0x47);
    lemma_bytes_at(data, 0, seq![0xffu8, 0xd8, 0xff]);
    let m = seq![0xffu8, 0xd8, 0xff];
    assert(m[0] == 0xff && m[1] == 0xd8 && m[2] == 0xff);
    lemma_four(data, 0, 0x47, 0x49, 0x46, 0x38);
    lemma_four(data, 0, 0x52, 0x49, 0x46, 0x46);
    lemma_four(data, 8, 0x57, 0x45, 0x42, 0x50);
    lemma_four(data, 4, 0x66, 0x74, 0x79, 0x70);
    lemma_four(data, 0, 0x1a, 0x45, 0xdf, 0xa3);
    lemma_four(data, 0, 0x4f, 0x67, 0x67, 0x53);
    lemma_four(data, 0, 0x25, 0x50, 0x44, 0x46);
}

proof fn lemma_four(data: Seq<u8>, at: int, a: u8, b: u8, c: u8, d: u8)
    requires
        0 <= at,
    ensures
        bytes_at(data, at, seq![a, b, c, d]) <==> data.len() >= at + 4 && data[at] == a && data[at + 1]
            == b && data[at + 2] == c && data[at + 3] == d,
{
    let m = seq![a, b, c, d];
    lemma_bytes_at(data, at, m);
    assert(m[0] == a && m[1] == b && m[2] == c && m[3] == d);
}

/// The name of a file in a folder is what stands behind the last slash.
pub proof fn law_file_is_named_by_last_component(folder: Seq<char>, name: Seq<char>)
    requires
        name.len() > 0,
        !name.contains('/'),
        name != "."@,
        name != ".."@,
    ensures
        last_component(name, name.len() as int) == Some(name),
        ({
            let path = folder + seq!['/'] + name;
            last_component(path, path.len() as int) == Some(name)
        }),
        safe_base(folder + seq!['/'] + name) == safe_base(name),
{
    let path = folder + seq!['/'] + name;
    let n = path.len() as int;
    lemma_segment_start(path, n);
    lemma_segment_start(name, name.len() as int);
    let b = segment_start(path, n);
    assert(path[folder.len() as int] == '/');
    assert(b == folder.len() + 1) by {
        if b <= folder.len() {
            assert(path[folder.len() as int] != '/');
        }
        if b > folder.len() + 1 {
            let i = b - 1 - (folder.len() + 1);
            assert(path[b - 1] == name[i]);
            assert(name.contains('/'));
        }
    }
    assert(path.subrange(b, n) == name);
    let c = segment_start(name, name.len() as int);
    assert(c == 0) by {
        if c > 0 {
            assert(name[c - 1] == '/');
            assert(name.contains('/'));
        }
    }
    assert(name.subrange(0, name.len() as int) == name);
}

proof fn lemma_last_dot_is(s: Seq<char>, n: int, d: int)
    requires
        0 <= d < n <= s.len(),
        s[d] == '.',
        forall|i: int| d < i < n ==> (#[trigger] s[i]) != '.',
    ensures
        last_dot(s, n) == d,
    decreases n,
{
    if n - 1 > d {
        lemma_last_dot_is(s, n - 1, d);
    }
}

proof fn lemma_no_dot(s: Seq<char>, n: int)
    requires
        0 <= n <= s.len(),
        forall|i: int| 0 <= i < n ==> (#[trigger] s[i]) != '.',
    ensures
        last_dot(s, n) == -1,
    decreases n,
{
    if n > 0 {
        lemma_no_dot(s, n - 1);
    }
}

/// Whether a text is made of letters and digits, so that it may stand in a file
/// name as it is.
pub open spec fn plain_name(s: Seq<char>) -> bool {
    s.len() > 0 && forall|i: int|
        0 <= i < s.len() ==> alphanumeric(#[trigger] s[i]) && s[i] != '.' && s[i] != '_' && s[i] != '/'
}

/// A plain file name is kept; where the content is of another format than the name
/// says, or the name says none, the name gets the extension of the content.
pub proof fn law_extension_follows_content(stem: Seq<char>, ext: Seq<char>, data: Seq<u8>)
    requires
        plain_name(stem),
        plain_name(ext),
    ensures
        ({
            let name = stem + seq!['.'] + ext;
            let kept = media_filename(name, data);
            &&& sniffed(data) is None ==> kept == name
            &&& sniffed(data) == Some(lowercase(ext)) ==> kept == name
            &&& sniffed(data) is Some && sniffed(data) != Some(lowercase(ext)) ==> kept == stem
                + seq!['.'] + sniffed(data)->0
        }),
        sniffed(data) is None ==> media_filename(stem, data) == stem,
        sniffed(data) is Some ==> media_filename(stem, data) == stem + seq!['.'] + sniffed(data)->0,
{
    reveal_strlit(".");
    reveal_strlit("..");
    assert("."@ == seq!['.']);
    let name = stem + seq!['.'] + ext;
    let d = stem.len() as int;
    assert(name[d] == '.' && name[0] == stem[0] && name[d + 1] == ext[0]);
    assert forall|i: int| 0 <= i < name.len() implies (#[trigger] name[i]) != '/' && safe_file_char(
        name[i],
    ) == name[i] by {
        if i < d {
            assert(name[i] == stem[i]);
        } else if i > d {
            assert(name[i] == ext[i - d - 1]);
        }
    }
    assert(name != "."@ && name != ".."@) by {
        assert(".."@[0] == '.');
    }
    assert(stem != "."@ && stem != ".."@) by {
        assert(".."@[0] == '.');
    }
    let folder = Seq::<char>::empty();
    law_file_is_named_by_last_component(folder, name);
    law_file_is_named_by_last_component(folder, stem);
    assert(name.map_values(|c: char| safe_file_char(c)) == name);
    assert(stem.map_values(|c: char| safe_file_char(c)) == stem);
    assert(without_lead(name) == name);
    assert(without_lead(stem) == stem);
    assert forall|i: int| d < i < name.len() implies (#[trigger] name[i]) != '.' by {
        assert(name[i] == ext[i - d - 1]);
    }
    lemma_last_dot_is(name, name.len() as int, d);
    lemma_no_dot(stem, stem.len() as int);
    assert(name.skip(d + 1) == ext);
    assert(name.take(d) == stem);
}

/// What is sent is declared by its extension: pictures, videos, sound and documents
/// by their own media type, everything else as plain bytes.
pub proof fn law_files_are_declared_by_extension(
    path: Seq<char>,
    folder: Seq<char>,
    stem: Seq<char>,
    ext: Seq<char>,
)
    requires
        plain_name(stem),
        plain_name(ext),
        path == folder + seq!['/'] + stem + seq!['.'] + ext,
    ensures
        ({
            let name = last_component(path, path.len() as int);
            &&& name == Some(stem + seq!['.'] + ext)
            &&& extension(name->0) == Some(ext)
        }),
        ext == "png"@ ==> media_type(Some(ext)) == "image/png"@,
        ext == "jpg"@ || ext == "jpeg"@ ==> media_type(Some(ext)) == "image/jpeg"@,
        ext == "gif"@ ==> media_type(Some(ext)) == "image/gif"@,
        ext == "webp"@ ==> media_type(Some(ext)) == "image/webp"@,
        ext == "svg"@ ==> media_type(Some(ext)) == "image/svg+xml"@,
        ext == "mp4"@ ==> media_type(Some(ext)) == "video/mp4"@,
        ext == "webm"@ ==> media_type(Some(ext)) == "video/webm"@,
        ext == "mov"@ ==> media_type(Some(ext)) == "video/quicktime"@,
        ext == "mp3"@ ==> media_type(Some(ext)) == "audio/mpeg"@,
        ext == "ogg"@ ==> media_type(Some(ext)) == "audio/ogg"@,
        ext == "wav"@ ==> media_type(Some(ext)) == "audio/wav"@,
        ext == "flac"@ ==> media_type(Some(ext)) == "audio/flac"@,
        ext == "pdf"@ ==> media_type(Some(ext)) == "application/pdf"@,
        ext.len() > 4 ==> media_type(Some(ext)) == "application/octet-stream"@,
        media_type(None) == "application/octet-stream"@,
{
    reveal_strlit(".");
    reveal_strlit("..");
    let name = stem + seq!['.'] + ext;
    assert(path == folder + seq!['/'] + name);
    let d = stem.len() as int;
    assert(name[d] == '.' && name[0] == stem[0] && name[d + 1] == ext[0]);
    assert forall|i: int| 0 <= i < name.len() implies (#[trigger] name[i]) != '/' by {
        if i < d {
            assert(name[i] == stem[i]);
        } else if i > d {
            assert(name[i] == ext[i - d - 1]);
        }
    }
    assert(name != "."@ && name != ".."@) by {
        assert(".."@[0] == '.');
    }
    law_file_is_named_by_last_component(folder, name);
    assert forall|i: int| d < i < name.len() implies (#[trigger] name[i]) != '.' by {
        assert(name[i] == ext[i - d - 1]);
    }
    lemma_last_dot_is(name, name.len() as int, d);
    assert(name.skip(d + 1) == ext);
    reveal_strlit("png");
    reveal_strlit("jpg");
    reveal_strlit("jpeg");
    reveal_strlit("gif");
    reveal_strlit("webp");
    reveal_strlit("svg");
    reveal_strlit("mp4");
    reveal_strlit("webm");
    reveal_strlit("mov");
    reveal_strlit("mp3");
    reveal_strlit("ogg");
    reveal_strlit("wav");
    reveal_strlit("flac");
    reveal_strlit("pdf");
    assert("png"@[0] == 'p' && "png"@[1] == 'n' && "png"@.len() == 3);
    assert("pdf"@[0] == 'p' && "pdf"@[1] == 'd' && "pdf"@.len() == 3);
    assert("jpg"@[0] == 'j' && "jpg"@.len() == 3);
    assert("jpeg"@[0] == 'j' && "jpeg"@.len() == 4);
    assert("gif"@[0] == 'g' && "gif"@.len() == 3);
    assert("webp"@[3] == 'p' && "webp"@[0] == 'w' && "webp"@.len() == 4);
    assert("webm"@[3] == 'm' && "webm"@[0] == 'w' && "webm"@.len() == 4);
    assert("svg"@[0] == 's' && "svg"@.len() == 3);
    assert("mp4"@[0] == 'm' && "mp4"@[1] == 'p' && "mp4"@[2] == '4' && "mp4"@.len() == 3);
    assert("mp3"@[0] == 'm' && "mp3"@[1] == 'p' && "mp3"@[2] == '3' && "mp3"@.len() == 3);
    assert("mov"@[0] == 'm' && "mov"@[1] == 'o' && "mov"@.len() == 3);
    assert("ogg"@[0] == 'o' && "ogg"@.len() == 3);
    assert("wav"@[0] == 'w' && "wav"@.len() == 3);
    assert("flac"@[0] == 'f' && "flac"@.len() == 4);
}

/// An attachment from the web whose content type names one format has the extension
/// of that format, whatever its address; where it names none, a short end of the
/// address behind the last dot is the extension.
pub proof fn law_web_files_are_named_by_content_type(
    content_type: Seq<char>,
    url: Seq<char>,
    host: Seq<char>,
    tail: Seq<char>,
)
    requires
        url == host + seq!['.'] + tail,
        !tail.contains('.'),
    ensures
        contains(content_type, "gif"@) ==> web_extension(content_type, url) == "gif"@,
        contains(content_type, "png"@) && !contains(content_type, "gif"@) ==> web_extension(
            content_type,
            url,
        ) == "png"@,
        ({
            let still = contains(content_type, "gif"@) || contains(content_type, "png"@);
            let webp = contains(content_type, "webp"@);
            let mp4 = contains(content_type, "mp4"@);
            let webm = contains(content_type, "webm"@);
            let jpeg = contains(content_type, "jpeg"@) || contains(content_type, "jpg"@);
            &&& webp && !still ==> web_extension(content_type, url) == "webp"@
            &&& mp4 && !still && !webp ==> web_extension(content_type, url) == "mp4"@
            &&& webm && !still && !webp && !mp4 ==> web_extension(content_type, url) == "webm"@
            &&& jpeg && !still && !webp && !mp4 && !webm ==> web_extension(content_type, url)
                == "jpg"@
            &&& !jpeg && !still && !webp && !mp4 && !webm && byte_len(tail) <= 4 ==> web_extension(
                content_type,
                url,
            ) == tail
            &&& !jpeg && !still && !webp && !mp4 && !webm && byte_len(tail) > 4 ==> web_extension(
                content_type,
                url,
            ) == "gif"@
        }),
{
    let d = host.len() as int;
    assert(url[d] == '.');
    assert forall|i: int| d < i < url.len() implies (#[trigger] url[i]) != '.' by {
        assert(url[i] == tail[i - d - 1]);
        assert(tail.contains(tail[i - d - 1]));
    }
    lemma_last_dot_is(url, url.len() as int, d);
    assert(url.skip(d + 1) == tail);
}

/// Text in plain letters is as long in bytes as in characters.
pub proof fn law_plain_letters_are_one_byte(s: Seq<char>)
    requires
        forall|i: int| 0 <= i < s.len() ==> (#[trigger] s[i] as u32) < 0x80,
    ensures
        byte_len(s) == s.len(),
    decreases s.len(),
{
    if s.len() > 0 {
        assert((s[s.len() - 1] as u32) < 0x80);
        assert forall|i: int| 0 <= i < s.drop_last().len() implies (#[trigger] s.drop_last()[i] as u32)
            < 0x80 by {
            assert((s[i] as u32) < 0x80);
        }
        law_plain_letters_are_one_byte(s.drop_last());
    }
}

/// A file on disk is ready under its path; an attachment of the web is fetched from
/// there, and one of the homeserver by its source, or else by its address.
pub proof fn law_attachments_are_got_where_they_are(url: &str, source_json: &str, plan: Download)
    requires
        call_ensures(plan_download, (url, source_json), plan),
    ensures
        forall|path: Seq<char>|
            url@ == #[trigger] ("file://"@ + path) ==> plan is Ready && plan->event is MediaReady
                && plan->event->MediaReady_path@ == path && plan->event->MediaReady_url@ == url@,
        forall|rest: Seq<char>| url@ == #[trigger] ("https://"@ + rest) ==> plan is Web,
        !starts_with(url@, "file://"@) && !starts_with(url@, "https://"@) && !starts_with(
            url@,
            "http://"@,
        ) ==> (source_json@.len() > 0 ==> plan is Source) && (source_json@.len() == 0 ==> plan is Uri),
{
    reveal_strlit("file://");
    reveal_strlit("https://");
    let file = "file://"@;
    let web = "https://"@;
    assert(file.len() == 7 && file[0] == 'f' && web.len() == 8 && web[0] == 'h');
    assert forall|path: Seq<char>| url@ == #[trigger] ("file://"@ + path) implies plan is Ready
        && plan->event is MediaReady && plan->event->MediaReady_path@ == path
        && plan->event->MediaReady_url@ == url@ by {
        assert(url@.subrange(0, 7) == file);
        assert(url@.skip(7) == path);
    }
    assert forall|rest: Seq<char>| url@ == #[trigger] ("https://"@ + rest) implies plan is Web by {
        assert(url@.subrange(0, 8) == web);
        if starts_with(url@, file) {
            assert(url@.subrange(0, 7)[0] == 'f');
            assert(url@[0] == 'h');
        }
    }
}

} // verus!
