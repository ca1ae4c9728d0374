//! Turning a local file into a content block: base64 encoding, type inference
//! from the extension, and a human-readable label.
use vstd::prelude::*;

use base64::Engine;

use crate::message::{ContentBlock, ImageData};
use crate::text::{has_prefix, lowercase, starts_with, str_eq, to_ascii_lowercase};

verus! {

// ---------------------------------------------------------------------------
// Base64
// ---------------------------------------------------------------------------

/// The character of a 6-bit value in the standard base64 alphabet (RFC 4648).
pub open spec fn b64_digit(v: int) -> char {
    if v < 26 {
        ('A' as int + v) as char
    } else if v < 52 {
        ('a' as int + (v - 26)) as char
    } else if v < 62 {
        ('0' as int + (v - 52)) as char
    } else if v == 62 {
        '+'
    } else {
        '/'
    }
}

/// Standard base64 with `=` padding (RFC 4648, section 4): every three bytes
/// become four characters; a final one or two bytes become four characters
/// ending in `==` or `=`.
pub open spec fn base64_encode(b: Seq<u8>) -> Seq<char>
    decreases b.len(),
{
    if b.len() == 0 {
        Seq::empty()
    } else {
        let x = b[0] as int;
        let y = if b.len() > 1 { b[1] as int } else { 0 };
        let z = if b.len() > 2 { b[2] as int } else { 0 };
        if b.len() == 1 {
            seq![b64_digit(x / 4), b64_digit((x % 4) * 16), '=', '=']
        } else if b.len() == 2 {
            seq![b64_digit(x / 4), b64_digit((x % 4) * 16 + y / 16), b64_digit((y % 16) * 4), '=']
        } else {
            seq![
                b64_digit(x / 4),
                b64_digit((x % 4) * 16 + y / 16),
                b64_digit((y % 16) * 4 + z / 64),
                b64_digit(z % 64),
            ] + base64_encode(b.skip(3))
        }
    }
}

/// The 6-bit value of a character of the standard base64 alphabet.
pub open spec fn b64_value(c: char) -> int {
    if 'A' <= c && c <= 'Z' {
        c as int - 'A' as int
    } else if 'a' <= c && c <= 'z' {
        c as int - 'a' as int + 26
    } else if '0' <= c && c <= '9' {
        c as int - '0' as int + 52
    } else if c == '+' {
        62
    } else {
        63
    }
}

/// Standard padded base64 decoding (RFC 4648, section 4): every four characters
/// give three bytes, and a final group ending in `==` or `=` gives one or two.
pub open spec fn base64_decode(s: Seq<char>) -> Seq<u8>
    decreases s.len(),
{
    if s.len() < 4 {
        Seq::empty()
    } else {
        let a = b64_value(s[0]);
        let b = b64_value(s[1]);
        let c = b64_value(s[2]);
        let d = b64_value(s[3]);
        if s[2] == '=' {
            seq![(a * 4 + b / 16) as u8]
        } else if s[3] == '=' {
            seq![(a * 4 + b / 16) as u8, ((b % 16) * 16 + c / 4) as u8]
        } else {
            seq![(a * 4 + b / 16) as u8, ((b % 16) * 16 + c / 4) as u8, ((c % 4) * 64 + d) as u8]
                + base64_decode(s.skip(4))
        }
    }
}

proof fn lemma_digit_value(v: int)
    requires
        0 <= v < 64,
    ensures
        b64_value(b64_digit(v)) == v,
        b64_digit(v) != '=',
{
}

proof fn lemma_regroup(x: int, y: int, z: int)
    requires
        0 <= x < 256,
        0 <= y < 256,
        0 <= z < 256,
    ensures
        0 <= x / 4 < 64,
        0 <= (x % 4) * 16 + y / 16 < 64,
        0 <= (y % 16) * 4 + z / 64 < 64,
        0 <= z % 64 < 64,
        (x / 4) * 4 + ((x % 4) * 16 + y / 16) / 16 == x,
        (((x % 4) * 16 + y / 16) % 16) * 16 + ((y % 16) * 4 + z / 64) / 4 == y,
        (((y % 16) * 4 + z / 64) % 4) * 64 + z % 64 == z,
{
}

/// Decoding undoes encoding: the base64 text of bytes decodes to those bytes.
pub proof fn law_base64_round_trip(bytes: Seq<u8>)
    ensures
        base64_decode(base64_encode(bytes)) == bytes,
    decreases bytes.len(),
{
    if bytes.len() > 0 {
        let x = bytes[0] as int;
        let y = if bytes.len() > 1 { bytes[1] as int } else { 0 };
        let z = if bytes.len() > 2 { bytes[2] as int } else { 0 };
        lemma_regroup(x, y, z);
        lemma_digit_value(x / 4);
        lemma_digit_value((x % 4) * 16 + y / 16);
        lemma_digit_value((y % 16) * 4 + z / 64);
        lemma_digit_value(z % 64);
        let e = base64_encode(bytes);
        if bytes.len() == 1 {
            assert(base64_decode(e) =~= bytes);
        } else if bytes.len() == 2 {
            assert(base64_decode(e) =~= bytes);
        } else {
            law_base64_round_trip(bytes.skip(3));
            let head: Seq<char> = seq![
                b64_digit(x / 4),
                b64_digit((x % 4) * 16 + y / 16),
                b64_digit((y % 16) * 4 + z / 64),
                b64_digit(z % 64),
            ];
            assert(e == head + base64_encode(bytes.skip(3)));
            assert(e.skip(4) =~= base64_encode(bytes.skip(3)));
            assert(bytes =~= seq![bytes[0], bytes[1], bytes[2]] + bytes.skip(3));
            assert(base64_decode(e) =~= bytes);
        }
    }
}

/// Calls `Engine::encode` of `base64::engine::general_purpose::STANDARD`, the
/// engine the crate documents as the standard alphabet with padding: the result
/// is `base64_encode` of the bytes.
#[verifier::external_body]
fn encode_base64(bytes: &[u8]) -> (res: String)
    ensures
        res@ == base64_encode(bytes@),
{
    base64::engine::general_purpose::STANDARD.encode(bytes)
}

// ---------------------------------------------------------------------------
// Paths
// ---------------------------------------------------------------------------

/// What `std::path::Path::extension` finds in a path.
pub uninterp spec fn file_extension(path: Seq<char>) -> Option<Seq<char>>;

/// What `std::path::Path::file_name` finds in a path.
pub uninterp spec fn file_name_of(path: Seq<char>) -> Option<Seq<char>>;

/// Calls `std::path::Path::extension` on `path`; the result is named
/// `file_extension`. (A part of a `&str` is valid UTF-8, so `to_str` always
/// succeeds.)
#[verifier::external_body]
fn path_extension(path: &str) -> (res: Option<String>)
    ensures
        match res {
            Some(e) => file_extension(path@) == Some(e@),
            None => file_extension(path@) is None,
        },
{
    match std::path::Path::new(path).extension() {
        Some(e) => e.to_str().map(str::to_owned),
        None => None,
    }
}

/// Calls `std::path::Path::file_name` on `path`; the result is named
/// `file_name_of`.
#[verifier::external_body]
fn path_file_name(path: &str) -> (res: Option<String>)
    ensures
        match res {
            Some(n) => file_name_of(path@) == Some(n@),
            None => file_name_of(path@) is None,
        },
{
    match std::path::Path::new(path).file_name() {
        Some(n) => n.to_str().map(str::to_owned),
        None => None,
    }
}

// ---------------------------------------------------------------------------
// Type inference
// ---------------------------------------------------------------------------

/// The media type for a (case-insensitive) file extension.
pub open spec fn media_type_of(ext: Seq<char>) -> Seq<char> {
    let e = lowercase(ext);
    if e == "png"@ {
        "image/png"@
    } else if e == "jpg"@ || e == "jpeg"@ {
        "image/jpeg"@
    } else if e == "gif"@ {
        "image/gif"@
    } else if e == "webp"@ {
        "image/webp"@
    } else if e == "pdf"@ {
        "application/pdf"@
    } else if e == "txt"@ {
        "text/plain"@
    } else if e == "md"@ {
        "text/markdown"@
    } else if e == "json"@ {
        "application/json"@
    } else {
        "application/octet-stream"@
    }
}

/// The `input_audio` format for a (case-insensitive) file extension: only WAV
/// and MP3 are accepted.
pub open spec fn audio_format_of(ext: Seq<char>) -> Option<Seq<char>> {
    let e = lowercase(ext);
    if e == "wav"@ {
        Some("wav"@)
    } else if e == "mp3"@ {
        Some("mp3"@)
    } else {
        None
    }
}

/// The extension of a path, or nothing when it has none.
pub open spec fn extension_or_empty(path: Seq<char>) -> Seq<char> {
    match file_extension(path) {
        Some(e) => e,
        None => Seq::empty(),
    }
}

/// The media type for a file extension (compared case-insensitively); unknown
/// extensions give `application/octet-stream`.
pub fn media_type_for_extension(ext: &str) -> (res: String)
    ensures
        res@ == media_type_of(ext@),
{
    let lower = to_ascii_lowercase(ext);
    let e = lower.as_str();
    let t = if str_eq(e, "png") {
        "image/png"
    } else if str_eq(e, "jpg") || str_eq(e, "jpeg") {
        "image/jpeg"
    } else if str_eq(e, "gif") {
        "image/gif"
    } else if str_eq(e, "webp") {
        "image/webp"
    } else if str_eq(e, "pdf") {
        "application/pdf"
    } else if str_eq(e, "txt") {
        "text/plain"
    } else if str_eq(e, "md") {
        "text/markdown"
    } else if str_eq(e, "json") {
        "application/json"
    } else {
        "application/octet-stream"
    };
    t.to_owned()
}

/// The audio format for a file extension (compared case-insensitively), when it
/// is one that `input_audio` accepts.
pub fn audio_format_for_extension(ext: &str) -> (res: Option<&'static str>)
    ensures
        match res {
            Some(f) => audio_format_of(ext@) == Some(f@),
            None => audio_format_of(ext@) is None,
        },
{
    let lower = to_ascii_lowercase(ext);
    if str_eq(lower.as_str(), "wav") {
        Some("wav")
    } else if str_eq(lower.as_str(), "mp3") {
        Some("mp3")
    } else {
        None
    }
}

/// The media type of a file, by its extension.
pub fn guess_media_type(path: &str) -> (res: String)
    ensures
        res@ == media_type_of(extension_or_empty(path@)),
{
    match path_extension(path) {
        Some(e) => media_type_for_extension(e.as_str()),
        None => {
            proof {
                reveal_strlit("");
                assert(""@ =~= Seq::<char>::empty());
            }
            media_type_for_extension("")
        },
    }
}

/// The audio format of a file, by its extension: `wav` or `mp3`; other audio
/// extensions are treated as generic files.
pub fn guess_audio_format(path: &str) -> (res: Option<&'static str>)
    ensures
        match res {
            Some(f) => file_extension(path@) matches Some(e) && audio_format_of(e) == Some(f@),
            None => file_extension(path@) matches Some(e) ==> audio_format_of(e) is None,
        },
{
    match path_extension(path) {
        Some(e) => audio_format_for_extension(e.as_str()),
        None => None,
    }
}

/// The block an attachment becomes, given what was found in its path.
/// `extension` and `file_name` are the extension and final component of `path`,
/// `data` the file's bytes in base64. Audio with a known format becomes `Audio`;
/// otherwise a media type is inferred, and `image/*` becomes `Image`, anything
/// else `File` named by its final component (or the whole path without one).
pub open spec fn attachment_matches(
    block: ContentBlock,
    path: Seq<char>,
    extension: Option<Seq<char>>,
    file_name: Option<Seq<char>>,
    data: Seq<char>,
) -> bool {
    let ext = match extension {
        Some(e) => e,
        None => Seq::empty(),
    };
    let audio = match extension {
        Some(e) => audio_format_of(e),
        None => None,
    };
    let media = media_type_of(ext);
    match audio {
        Some(fmt) => block matches ContentBlock::Audio { format, data: d } && format@ == fmt
            && d@ == data,
        None => if has_prefix(media, "image/"@) {
            block matches ContentBlock::Image { media_type, data: ImageData::Base64(d) }
                && media_type@ == media && d@ == data
        } else {
            block matches ContentBlock::File { name, media_type, data: ImageData::Base64(d) }
                && name@ == (match file_name {
                Some(n) => n,
                None => path,
            }) && media_type@ == media && d@ == data
        },
    }
}

/// The media types inferred from extensions, in any letter case; unknown
/// extensions give `application/octet-stream`. Only `wav` and `mp3` are audio.
pub proof fn law_media_type_table(ext: Seq<char>)
    ensures
        lowercase(ext) == "pdf"@ ==> media_type_of(ext) == "application/pdf"@,
        lowercase(ext) == "txt"@ ==> media_type_of(ext) == "text/plain"@,
        lowercase(ext) == "md"@ ==> media_type_of(ext) == "text/markdown"@,
        lowercase(ext) == "json"@ ==> media_type_of(ext) == "application/json"@,
        lowercase(ext) != "png"@ && lowercase(ext) != "jpg"@ && lowercase(ext) != "jpeg"@
            && lowercase(ext) != "gif"@ && lowercase(ext) != "webp"@ && lowercase(ext) != "pdf"@
            && lowercase(ext) != "txt"@ && lowercase(ext) != "md"@ && lowercase(ext) != "json"@
            ==> media_type_of(ext) == "application/octet-stream"@,
        lowercase(ext) == "wav"@ ==> audio_format_of(ext) == Some("wav"@),
        lowercase(ext) == "mp3"@ ==> audio_format_of(ext) == Some("mp3"@),
        lowercase(ext) != "wav"@ && lowercase(ext) != "mp3"@ ==> audio_format_of(ext) is None,
{
    reveal_strlit("png");
    reveal_strlit("jpg");
    reveal_strlit("jpeg");
    reveal_strlit("gif");
    reveal_strlit("webp");
    reveal_strlit("pdf");
    reveal_strlit("txt");
    reveal_strlit("md");
    reveal_strlit("json");
    reveal_strlit("wav");
    reveal_strlit("mp3");
    let e = lowercase(ext);
    if e == "pdf"@ || e == "txt"@ || e == "md"@ || e == "json"@ {
        assert(e != "png"@) by { assert(e.len() != 3 || e[0] != 'p' || e[1] != 'n'); }
        assert(e != "jpg"@) by { assert(e.len() != 3 || e[0] != 'j'); }
        assert(e != "jpeg"@) by { assert(e.len() != 4 || e[1] != 'p'); }
        assert(e != "gif"@) by { assert(e.len() != 3 || e[0] != 'g'); }
        assert(e != "webp"@) by { assert(e.len() != 4 || e[0] != 'w'); }
    }
    if e == "txt"@ || e == "md"@ || e == "json"@ {
        assert(e != "pdf"@) by { assert(e.len() != 3 || e[0] != 'p'); }
    }
    if e == "md"@ || e == "json"@ {
        assert(e != "txt"@) by { assert(e.len() != 3 || e[0] != 't'); }
    }
    if e == "json"@ {
        assert(e != "md"@) by { assert(e.len() != 2); }
    }
    if e == "mp3"@ {
        assert(e != "wav"@) by { assert(e[0] != 'w'); }
    }
}

/// Every attachment whose inferred media type is an `image/` type becomes an
/// Image block carrying that media type and the base64 data; PNG, JPEG, GIF and
/// WebP files, by extension in any letter case, are such attachments.
pub proof fn law_images_become_image_blocks(
    block: ContentBlock,
    path: Seq<char>,
    ext: Seq<char>,
    file_name: Option<Seq<char>>,
    data: Seq<char>,
)
    requires
        attachment_matches(block, path, Some(ext), file_name, data),
    ensures
        has_prefix(media_type_of(ext), "image/"@) ==> (block matches ContentBlock::Image {
            media_type,
            data: ImageData::Base64(d),
        } && media_type@ == media_type_of(ext) && d@ == data),
        lowercase(ext) == "png"@ ==> (block matches ContentBlock::Image { media_type, .. }
            && media_type@ == "image/png"@),
        lowercase(ext) == "jpg"@ || lowercase(ext) == "jpeg"@ ==> (
        block matches ContentBlock::Image { media_type, .. } && media_type@ == "image/jpeg"@),
        lowercase(ext) == "gif"@ ==> (block matches ContentBlock::Image { media_type, .. }
            && media_type@ == "image/gif"@),
        lowercase(ext) == "webp"@ ==> (block matches ContentBlock::Image { media_type, .. }
            && media_type@ == "image/webp"@),
{
    reveal_strlit("wav");
    reveal_strlit("mp3");
    reveal_strlit("png");
    reveal_strlit("jpg");
    reveal_strlit("jpeg");
    reveal_strlit("gif");
    reveal_strlit("webp");
    reveal_strlit("pdf");
    reveal_strlit("txt");
    reveal_strlit("md");
    reveal_strlit("json");
    reveal_strlit("image/");
    reveal_strlit("image/png");
    reveal_strlit("image/jpeg");
    reveal_strlit("image/gif");
    reveal_strlit("image/webp");
    reveal_strlit("application/octet-stream");
    let e = lowercase(ext);
    if e == "wav"@ || e == "mp3"@ {
        assert(e != "png"@) by { assert(e[0] != "png"@[0]); }
        assert(e != "jpg"@) by { assert(e[0] != "jpg"@[0]); }
        assert(e != "jpeg"@);
        assert(e != "gif"@) by { assert(e[0] != "gif"@[0]); }
        assert(e != "webp"@) by { assert(e.len() != "webp"@.len()); }
        assert(e != "pdf"@) by { assert(e[0] != "pdf"@[0]); }
        assert(e != "txt"@) by { assert(e[0] != "txt"@[0]); }
        assert(e != "md"@) by { assert(e.len() != "md"@.len()); }
        assert(e != "json"@) by { assert(e.len() != "json"@.len()); }
        assert(media_type_of(ext) == "application/octet-stream"@);
        assert(!has_prefix(media_type_of(ext), "image/"@)) by {
            assert(media_type_of(ext).take(6)[0] != "image/"@[0]);
        }
    }
    let t = "image/"@;
    if e == "png"@ {
        assert("image/png"@.take(6) =~= t);
    }
    if e == "jpg"@ || e == "jpeg"@ {
        assert(e != "png"@) by { assert(e[1] != "png"@[1]); }
        assert("image/jpeg"@.take(6) =~= t);
    }
    if e == "gif"@ {
        assert(e != "png"@) by { assert(e[0] != "png"@[0]); }
        assert(e != "jpg"@) by { assert(e[0] != "jpg"@[0]); }
        assert("image/gif"@.take(6) =~= t);
    }
    if e == "webp"@ {
        assert(e != "png"@) by { assert(e.len() != "png"@.len()); }
        assert(e != "jpg"@) by { assert(e.len() != "jpg"@.len()); }
        assert(e != "jpeg"@) by { assert(e[0] != "jpeg"@[0]); }
        assert(e != "gif"@) by { assert(e.len() != "gif"@.len()); }
        assert("image/webp"@.take(6) =~= t);
    }
}

/// Builds the block for an attachment from what was found in its path.
pub fn build_attachment(
    path: &str,
    extension: Option<&str>,
    file_name: Option<&str>,
    data: String,
) -> (res: ContentBlock)
    ensures
        attachment_matches(
            res,
            path@,
            match extension {
                Some(e) => Some(e@),
                None => None,
            },
            match file_name {
                Some(n) => Some(n@),
                None => None,
            },
            data@,
        ),
{
    let audio = match extension {
        Some(e) => audio_format_for_extension(e),
        None => None,
    };
    match audio {
        Some(fmt) => {
            return ContentBlock::Audio { format: fmt.to_owned(), data };
        },
        None => {},
    }
    let media_type = match extension {
        Some(e) => media_type_for_extension(e),
        None => {
            proof {
                reveal_strlit("");
                assert(""@ =~= Seq::<char>::empty());
            }
            media_type_for_extension("")
        },
    };
    if starts_with(media_type.as_str(), "image/") {
        ContentBlock::Image { media_type, data: ImageData::Base64(data) }
    } else {
        let name = match file_name {
            Some(n) => n.to_owned(),
            None => path.to_owned(),
        };
        ContentBlock::File { name, media_type, data: ImageData::Base64(data) }
    }
}

/// The block for a file at `path` whose contents are `bytes`: the bytes are
/// base64-encoded and the block's kind is inferred from the extension.
pub fn attachment_block(path: &str, bytes: &[u8]) -> (res: ContentBlock)
    ensures
        attachment_matches(
            res,
            path@,
            file_extension(path@),
            file_name_of(path@),
            base64_encode(bytes@),
        ),
{
    let data = encode_base64(bytes);
    let ext = path_extension(path);
    let name = path_file_name(path);
    let e: Option<&str> = match &ext {
        Some(s) => Some(s.as_str()),
        None => None,
    };
    let n: Option<&str> = match &name {
        Some(s) => Some(s.as_str()),
        None => None,
    };
    build_attachment(path, e, n, data)
}

/// A short description of an attachment for the user: its kind and type, or the
/// file name and type.
pub open spec fn label_of(block: ContentBlock) -> Seq<char> {
    match block {
        ContentBlock::Image { media_type, .. } => "image ("@ + media_type@ + ")"@,
        ContentBlock::Audio { format, .. } => "audio ("@ + format@ + ")"@,
        ContentBlock::File { name, media_type, .. } => name@ + " ("@ + media_type@ + ")"@,
        _ => "attachment"@,
    }
}

/// A short description of an attachment for the user.
pub fn attachment_label(block: &ContentBlock) -> (res: String)
    ensures
        res@ == label_of(*block),
{
    match block {
        ContentBlock::Image { media_type, .. } => {
            let mut s = "image (".to_owned();
            s.append(media_type.as_str());
            s.append(")");
            s
        },
        ContentBlock::Audio { format, .. } => {
            let mut s = "audio (".to_owned();
            s.append(format.as_str());
            s.append(")");
            s
        },
        ContentBlock::File { name, media_type, .. } => {
            let mut s = name.clone();
            s.append(" (");
            s.append(media_type.as_str());
            s.append(")");
            s
        },
        _ => "attachment".to_owned(),
    }
}

} // verus!
