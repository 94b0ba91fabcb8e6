//! Turning an icon file into a self-contained data URI.
use vstd::prelude::*;

use base64::engine::general_purpose;
use base64::Engine;

use crate::text::{chars_of, same_chars};

verus! {

/// The symbol for a six-bit value in the standard base64 alphabet (RFC 4648).
pub open spec fn base64_symbol(v: int) -> char {
    "ABCDEFGHIJKLMNOPQRSTUVWXYZabcdefghijklmnopqrstuvwxyz0123456789+/"@[v]
}

/// Standard base64 with padding: each group of three bytes gives four symbols; a last
/// group of one or two bytes gives two or three, completed with `=`.
pub open spec fn base64_of(bytes: Seq<u8>) -> Seq<char>
    decreases bytes.len(),
{
    if bytes.len() == 0 {
        Seq::empty()
    } else if bytes.len() == 1 {
        let n = bytes[0] as int;
        seq![base64_symbol(n / 4), base64_symbol((n % 4) * 16), '=', '=']
    } else if bytes.len() == 2 {
        let n = bytes[0] as int * 256 + bytes[1] as int;
        seq![base64_symbol(n / 1024), base64_symbol((n / 16) % 64), base64_symbol((n % 16) * 4), '=']
    } else {
        let n = bytes[0] as int * 65536 + bytes[1] as int * 256 + bytes[2] as int;
        seq![
            base64_symbol(n / 262144),
            base64_symbol((n / 4096) % 64),
            base64_symbol((n / 64) % 64),
            base64_symbol(n % 64),
        ] + base64_of(bytes.skip(3))
    }
}

/// Relies on base64's `STANDARD` engine `encode`: the RFC 4648 alphabet, with padding.
#[verifier::external_body]
fn encode_base64(bytes: &Vec<u8>) -> (r: String)
    ensures
        r@ == base64_of(bytes@),
{
    general_purpose::STANDARD.encode(bytes)
}

/// The index of the last `c` in `s`, if any.
pub open spec fn last_index_of(s: Seq<char>, c: char) -> Option<int>
    decreases s.len(),
{
    if s.len() == 0 {
        None
    } else if s.last() == c {
        Some(s.len() - 1)
    } else {
        last_index_of(s.drop_last(), c)
    }
}

/// `path` without its trailing `/` characters.
pub open spec fn trim_trailing_slashes(path: Seq<char>) -> Seq<char>
    decreases path.len(),
{
    if path.len() > 0 && path.last() == '/' {
        trim_trailing_slashes(path.drop_last())
    } else {
        path
    }
}

/// The last non-empty component of a path: what follows its last `/`, once trailing
/// `/` characters are set aside.
pub open spec fn file_name_of(path: Seq<char>) -> Seq<char> {
    let p = trim_trailing_slashes(path);
    match last_index_of(p, '/') {
        Some(i) => p.skip(i + 1),
        None => p,
    }
}

/// What follows the last `.` of the file name, where that `.` is not its first character
/// and the name is not `..`.
pub open spec fn extension_of(path: Seq<char>) -> Option<Seq<char>> {
    let name = file_name_of(path);
    match last_index_of(name, '.') {
        Some(i) => if i > 0 && name != ".."@ {
            Some(name.skip(i + 1))
        } else {
            None
        },
        None => None,
    }
}

/// The image subtype named by a file extension; an unknown one is used as it is.
pub open spec fn mime_subtype(ext: Seq<char>) -> Seq<char> {
    if ext == "svg"@ {
        "svg+xml"@
    } else if ext == "png"@ {
        "png"@
    } else if ext == "xpm"@ {
        "x-xpixmap"@
    } else if ext == "ico"@ {
        "x-icon"@
    } else if ext == "jpg"@ || ext == "jpeg"@ {
        "jpeg"@
    } else {
        ext
    }
}

/// `data:image/<subtype>;base64,<payload>`.
pub open spec fn data_uri(ext: Seq<char>, bytes: Seq<u8>) -> Seq<char> {
    "data:image/"@ + mime_subtype(ext) + ";base64,"@ + base64_of(bytes)
}

fn last_index(s: &Vec<char>, c: char) -> (r: Option<usize>)
    ensures
        match r {
            Some(i) => last_index_of(s@, c) == Some(i as int),
            None => last_index_of(s@, c) is None,
        },
        r matches Some(i) ==> i < s@.len(),
{
    let mut i = s.len();
    assert(s@.subrange(0, i as int) =~= s@);
    while i > 0
        invariant
            i <= s@.len(),
            last_index_of(s@, c) == last_index_of(s@.subrange(0, i as int), c),
        decreases i,
    {
        if s[i - 1] == c {
            return Some(i - 1);
        }
        assert(s@.subrange(0, i as int).drop_last() =~= s@.subrange(0, i - 1));
        i = i - 1;
    }
    None
}

/// The extension of the file that `path` names, as [`extension_of`] defines it.
pub fn file_extension(path: &str) -> (r: Option<String>)
    ensures
        match r {
            Some(e) => extension_of(path@) == Some(e@),
            None => extension_of(path@) is None,
        },
{
    let all = chars_of(path);
    let mut end = all.len();
    assert(path@.subrange(0, end as int) =~= path@);
    while end > 0 && all[end - 1] == '/'
        invariant
            end <= all@.len(),
            all@ == path@,
            trim_trailing_slashes(path@) == trim_trailing_slashes(path@.subrange(0, end as int)),
        decreases end,
    {
        assert(path@.subrange(0, end as int).drop_last() =~= path@.subrange(0, end - 1));
        end = end - 1;
    }
    let trimmed = path.substring_char(0, end);
    assert(trimmed@ == trim_trailing_slashes(path@));
    let chars = chars_of(trimmed);
    let n = chars.len();
    let start = match last_index(&chars, '/') {
        Some(i) => i + 1,
        None => 0,
    };
    let name = trimmed.substring_char(start, n);
    assert(name@ =~= file_name_of(path@));
    let name_chars = chars_of(name);
    match last_index(&name_chars, '.') {
        Some(j) => {
            if j > 0 && !same_chars(name, "..") {
                let ext = name.substring_char(j + 1, name_chars.len());
                assert(ext@ =~= name@.skip(j + 1));
                Some(String::from_str(ext))
            } else {
                None
            }
        },
        None => None,
    }
}

/// The image subtype for an extension: `svg` is `svg+xml`, `xpm` is `x-xpixmap`, `ico`
/// is `x-icon`, `jpg` and `jpeg` are `jpeg`; any other extension stands for itself.
pub fn mime_for_extension(ext: &str) -> (r: String)
    ensures
        r@ == mime_subtype(ext@),
{
    if same_chars(ext, "svg") {
        String::from_str("svg+xml")
    } else if same_chars(ext, "png") {
        String::from_str("png")
    } else if same_chars(ext, "xpm") {
        String::from_str("x-xpixmap")
    } else if same_chars(ext, "ico") {
        String::from_str("x-icon")
    } else if same_chars(ext, "jpg") || same_chars(ext, "jpeg") {
        String::from_str("jpeg")
    } else {
        String::from_str(ext)
    }
}

/// Encodes the bytes of the icon file at `path` as a data URI whose subtype comes from
/// the file's extension. A file without an extension gives `None`.
pub fn icon_to_base64(path: &str, bytes: &Vec<u8>) -> (r: Option<String>)
    ensures
        match r {
            Some(uri) => extension_of(path@) matches Some(e) && uri@ == data_uri(e, bytes@),
            None => extension_of(path@) is None,
        },
{
    match file_extension(path) {
        Some(ext) => {
            let mut uri = String::from_str("data:image/");
            let mime = mime_for_extension(ext.as_str());
            uri.append(mime.as_str());
            uri.append(";base64,");
            let payload = encode_base64(bytes);
            uri.append(payload.as_str());
            assert(uri@ =~= data_uri(ext@, bytes@));
            Some(uri)
        },
        None => None,
    }
}

/// The image that a control shows: the resolved icon, or `icon`, the name under which
/// the control's default image is known, when none was resolved.
pub fn icon_or_default(resolved: Option<String>) -> (r: String)
    ensures
        match resolved {
            Some(uri) => r@ == uri@,
            None => r@ == "icon"@,
        },
{
    match resolved {
        Some(uri) => uri,
        None => String::from_str("icon"),
    }
}

} // verus!
