//! Calls into the standard library and other crates whose results are taken
//! on trust. Every function here hands plain values to one outside function
//! and takes plain values back; its contract is what the rest of the crate
//! may rely on.

use crate::path::{slash_steps, steps_of, PathPart, PathPrefix};
use crate::text::ascii_lower;
use std::path::{Component, Prefix};
use vstd::prelude::*;
use vstd::utf8::{decode_utf8, is_ascii_chars, valid_utf8};

verus! {

/// What `str::to_lowercase` makes of a text.
pub uninterp spec fn unicode_lowercase(s: Seq<char>) -> Seq<char>;

/// The small letters of a text: the ASCII rule for ASCII texts, and the
/// Unicode rule of the standard library for all others.
pub open spec fn lowercase(s: Seq<char>) -> Seq<char> {
    if is_ascii_chars(s) {
        ascii_lower(s)
    } else {
        unicode_lowercase(s)
    }
}

/// `str::to_lowercase`. Claimed: on a text of ASCII characters alone it
/// replaces the capitals A to Z by a to z, and on any other text the result is
/// a function of the text, named [`unicode_lowercase`].
#[verifier::external_body]
fn std_to_lowercase(s: &str) -> (res: String)
    ensures
        is_ascii_chars(s@) ==> res@ == ascii_lower(s@),
        !is_ascii_chars(s@) ==> res@ == unicode_lowercase(s@),
{
    s.to_lowercase()
}

/// The small letters of a text.
pub fn to_lowercase(s: &str) -> (res: String)
    ensures
        res@ == lowercase(s@),
{
    std_to_lowercase(s)
}

/// What `String::from_utf8_lossy` makes of bytes that are not valid UTF-8.
pub uninterp spec fn repaired_utf8(bytes: Seq<u8>) -> Seq<char>;

/// The text that bytes stand for, invalid UTF-8 replaced.
pub open spec fn lossy_text(bytes: Seq<u8>) -> Seq<char> {
    if valid_utf8(bytes) {
        decode_utf8(bytes)
    } else {
        repaired_utf8(bytes)
    }
}

/// `String::from_utf8_lossy`. Claimed: valid UTF-8 is decoded as it stands,
/// and for other bytes the result is a function of the bytes, named
/// [`repaired_utf8`].
#[verifier::external_body]
fn std_from_utf8_lossy(bytes: &[u8]) -> (res: String)
    ensures
        valid_utf8(bytes@) ==> res@ == decode_utf8(bytes@),
        !valid_utf8(bytes@) ==> res@ == repaired_utf8(bytes@),
{
    String::from_utf8_lossy(bytes).into_owned()
}

/// The text that bytes stand for, invalid UTF-8 replaced.
pub fn text_of_bytes(bytes: &[u8]) -> (res: String)
    ensures
        res@ == lossy_text(bytes@),
{
    std_from_utf8_lossy(bytes)
}

/// The MD5 digest of some bytes.
pub uninterp spec fn md5_digest(bytes: Seq<u8>) -> Seq<u8>;

/// `md5::compute`. Claimed: the digest is sixteen bytes long and a function of
/// the data, named [`md5_digest`].
#[verifier::external_body]
pub(crate) fn md5_compute(bytes: &[u8]) -> (res: Vec<u8>)
    ensures
        res@ == md5_digest(bytes@),
        res@.len() == 16,
{
    md5::compute(bytes).to_vec()
}

/// The SHA-256 digest of some bytes.
pub uninterp spec fn sha256_digest(bytes: Seq<u8>) -> Seq<u8>;

/// `sha2::Sha256::digest`. Claimed: the digest is thirty-two bytes long and a
/// function of the data, named [`sha256_digest`]. The length of the data in
/// bits has to fit into 64 bits, which the hasher counts without a check.
#[verifier::external_body]
pub(crate) fn sha256_compute(bytes: &[u8]) -> (res: Vec<u8>)
    requires
        bytes@.len() < 0x2000_0000_0000_0000,
    ensures
        res@ == sha256_digest(bytes@),
        res@.len() == 32,
{
    <sha2::Sha256 as sha2::Digest>::digest(bytes).to_vec()
}

/// `getrandom::fill` on a fresh buffer of `len` bytes, `None` where the system
/// has no random bytes to give. Claimed: a buffer that was filled keeps its
/// length. Nothing is claimed of the bytes.
#[verifier::external_body]
pub(crate) fn random_bytes(len: usize) -> (res: Option<Vec<u8>>)
    ensures
        res matches Some(bytes) ==> bytes@.len() == len,
{
    let mut bytes = vec![0_u8; len];
    match getrandom::fill(&mut bytes) {
        Ok(()) => Some(bytes),
        Err(_) => None,
    }
}

/// `SystemTime::now`, as nanoseconds since the Unix epoch, `None` for a clock
/// set before it. Claimed: the whole seconds fit into 64 bits, as a `Duration`
/// holds them so. Nothing else is claimed of the time.
#[verifier::external_body]
pub(crate) fn unix_nanoseconds() -> (res: Option<u128>)
    ensures
        res matches Some(n) ==> n / 1_000_000_000 <= u64::MAX,
{
    std::time::SystemTime::now().duration_since(std::time::UNIX_EPOCH).ok().map(|d| d.as_nanos())
}

/// The members of the JSON object that a text holds: each key with its value
/// where that is a string.
pub uninterp spec fn json_members(body: Seq<char>) -> Option<
    Seq<(Seq<char>, Option<Seq<char>>)>,
>;

/// The text of an optional string.
pub open spec fn optional_text(s: Option<String>) -> Option<Seq<char>> {
    match s {
        Some(s) => Some(s@),
        None => None,
    }
}

/// The keys and texts of a list of members.
pub open spec fn member_texts(members: Seq<(String, Option<String>)>) -> Seq<
    (Seq<char>, Option<Seq<char>>),
> {
    members.map_values(|member: (String, Option<String>)| (member.0@, optional_text(member.1)))
}

/// `serde_json::from_str` into a `serde_json::Value`, given as the members of
/// an object; `None` for a text that is not JSON and for any other JSON value.
/// Claimed: the members are a function of the text, named [`json_members`].
#[verifier::external_body]
pub(crate) fn json_object(body: &str) -> (res: Option<Vec<(String, Option<String>)>>)
    ensures
        match res {
            Some(members) => json_members(body@) == Some(member_texts(members@)),
            None => json_members(body@) is None,
        },
{
    match serde_json::from_str(body) {
        Ok(serde_json::Value::Object(members)) => Some(members.into_iter().map(|(key, value)| (
            key,
            match value {
                serde_json::Value::String(text) => Some(text),
                _ => None,
            },
        )).collect()),
        _ => None,
    }
}

/// Characters that separate the parts of a path on some platform.
pub open spec fn is_path_separator(c: char) -> bool {
    c == '/' || c == '\\' || c == ':'
}

/// The text behind the last separator of a path.
pub open spec fn path_tail(path: Seq<char>) -> Seq<char>
    decreases path.len(),
{
    if path.len() == 0 || is_path_separator(path.last()) {
        Seq::empty()
    } else {
        path_tail(path.drop_last()).push(path.last())
    }
}

/// Whether the end of a path is an ordinary name, whatever the platform: it
/// does not end in a separator, a dot or two dots, and it does not begin with
/// two separators, which may announce the name of another machine.
pub open spec fn ends_in_name(path: Seq<char>) -> bool {
    &&& path_tail(path).len() > 0
    &&& path_tail(path) != seq!['.']
    &&& path_tail(path) != seq!['.', '.']
    &&& !(path.len() >= 2 && is_path_separator(path[0]) && is_path_separator(path[1]))
}

/// Whether a path separates its parts by slashes alone.
pub open spec fn slashes_only(path: Seq<char>) -> bool {
    forall|i: int| 0 <= i < path.len() ==> path[i] != '\\' && path[i] != ':'
}

/// What the last part of a path can be: the text behind the last separator,
/// before it no more than text that ends in a backslash or a colon, which not
/// every platform takes for a separator.
pub open spec fn fits_file_name(path: Seq<char>, name: Option<Seq<char>>) -> bool {
    ends_in_name(path) ==> {
        &&& name matches Some(n)
        &&& {
            let t = path_tail(path);
            let lead = n.len() - t.len();
            &&& lead >= 0
            &&& n.skip(lead) == t
            &&& lead > 0 ==> (n[lead - 1] == '\\' || n[lead - 1] == ':')
            &&& slashes_only(path) ==> lead == 0
        }
    }
}

/// `std::path::Path::file_name`. Claimed: what [`fits_file_name`] says of it
/// on every platform. Which characters separate the parts of a path is up to
/// the platform, so the rest is left open.
#[verifier::external_body]
pub(crate) fn file_name(path: &str) -> (res: Option<String>)
    ensures
        fits_file_name(path@, optional_text(res)),
{
    std::path::Path::new(path).file_name().and_then(|name| name.to_str()).map(|name| name.to_owned())
}

/// Whether the name of a file begins at `start` for some platform: it stands
/// at the beginning or behind a separator, and no slash is in it.
pub open spec fn can_begin_name(path: Seq<char>, start: int) -> bool {
    &&& 0 <= start <= path.len() - path_tail(path).len()
    &&& start == 0 || is_path_separator(path[start - 1])
    &&& forall|i: int| start <= i < path.len() ==> path[i] != '/'
}

/// Whether nothing but separators and dots stands between two places.
pub open spec fn only_separators(path: Seq<char>, from: int, to: int) -> bool {
    forall|i: int| from <= i < to ==> path[i] == '/' || path[i] == '\\' || path[i] == '.'
}

/// Whether a text ends in a slash, or in a dot behind a slash, which are no
/// parts of a path.
pub open spec fn ends_in_nothing(text: Seq<char>) -> bool {
    text.len() > 0 && (text.last() == '/' || (text.last() == '.' && text.len() > 1 && text[text.len()
        - 2] == '/'))
}

/// What the folder of a path can be. A path that ends in a name has a folder,
/// which is the beginning of the path: between the folder and the name stand
/// separators and dots alone, and a slash at the beginning is kept. Where
/// slashes alone separate, it is the text before the last of them, or the
/// slash itself where that is the first character.
pub open spec fn fits_parent(path: Seq<char>, parent: Option<Seq<char>>) -> bool {
    let lead = path.len() - path_tail(path).len();
    ends_in_name(path) ==> {
        &&& parent matches Some(p)
        &&& p.len() <= lead && p == path.take(p.len() as int)
        &&& exists|start: int| #[trigger]
            can_begin_name(path, start) && p.len() <= start && only_separators(
                path,
                p.len() as int,
                start,
            )
        &&& path[0] == '/' ==> p.len() > 0
        &&& slashes_only(path) && lead <= 1 ==> p == path.take(lead as int)
        &&& slashes_only(path) && lead > 1 && !ends_in_nothing(path.take(lead - 1)) ==> p
            == path.take(lead - 1)
    }
}

/// `std::path::Path::parent`. Claimed: what [`fits_parent`] says of it on
/// every platform; the rest is up to the platform.
#[verifier::external_body]
pub(crate) fn parent_folder(path: &str) -> (res: Option<String>)
    ensures
        fits_parent(path@, optional_text(res)),
{
    std::path::Path::new(path).parent().and_then(|folder| folder.to_str()).map(
        |folder| folder.to_owned(),
    )
}

/// Whether every platform takes a path apart in the same way: slashes alone
/// separate its parts, and it does not begin with two of them.
pub open spec fn settled_path(path: Seq<char>) -> bool {
    slashes_only(path) && !(path.len() >= 2 && path[0] == '/' && path[1] == '/')
}

/// Whether the last of some parts is a name that can be that of a path.
pub open spec fn name_is_last(path: Seq<char>, parts: Seq<PathPart>) -> bool {
    parts.len() > 0 && (parts.last() matches PathPart::Name(name) && fits_file_name(
        path,
        Some(name@),
    ))
}

/// `std::path::Path::components`, one part for each component. Claimed: where
/// slashes alone separate, the parts are the texts between them as
/// [`slash_steps`] says, without empty ones and without dots that are not the
/// beginning; and a path that ends in a name has that name as its last part.
/// How other paths are taken apart is up to the platform.
#[verifier::external_body]
pub(crate) fn path_parts(path: &str) -> (res: Vec<PathPart>)
    ensures
        settled_path(path@) ==> steps_of(res@) == slash_steps(path@),
        ends_in_name(path@) ==> name_is_last(path@, res@),
{
    std::path::Path::new(path).components().map(|part| match part {
        Component::Prefix(_) => PathPart::Prefix,
        Component::RootDir => PathPart::Root,
        Component::CurDir => PathPart::Current,
        Component::ParentDir => PathPart::Parent,
        Component::Normal(name) => PathPart::Name(name.to_string_lossy().into_owned()),
    }).collect()
}

/// `std::path::PrefixComponent::kind` of the first component of a path, `None`
/// where that is no prefix. Claimed: a path that slashes alone separate, and
/// that does not begin with two of them, has no prefix on any platform.
#[verifier::external_body]
pub(crate) fn path_prefix(path: &str) -> (res: Option<PathPrefix>)
    ensures
        settled_path(path@) ==> res is None,
{
    let text = |part| std::path::Path::new(part).display().to_string();
    match std::path::Path::new(path).components().next() {
        Some(Component::Prefix(prefix)) => Some(match prefix.kind() {
            Prefix::Verbatim(a) => PathPrefix::Verbatim(text(a)),
            Prefix::VerbatimUNC(a, b) => PathPrefix::VerbatimShare(text(a), text(b)),
            Prefix::VerbatimDisk(disk) => PathPrefix::VerbatimDisk(disk),
            Prefix::DeviceNS(a) => PathPrefix::Device(text(a)),
            Prefix::UNC(a, b) => PathPrefix::Share(text(a), text(b)),
            Prefix::Disk(disk) => PathPrefix::Disk(disk),
        }),
        _ => None,
    }
}

/// How `Debug` shows a text with characters that have to be escaped.
pub uninterp spec fn escaped_debug(s: Seq<char>) -> Seq<char>;

/// Whether a text holds nothing that has to be escaped between quotation
/// marks: printable ASCII characters but for quotation mark and backslash.
pub open spec fn is_plain(s: Seq<char>) -> bool {
    forall|i: int| 0 <= i < s.len() ==> ' ' <= #[trigger] s[i] <= '~' && s[i] != '"' && s[i] != '\\'
}

/// A text between quotation marks, as it is shown to developers.
pub open spec fn debug_text(s: Seq<char>) -> Seq<char> {
    if is_plain(s) {
        seq!['"'] + s + seq!['"']
    } else {
        escaped_debug(s)
    }
}

/// `Debug` of `str`, by way of `format!`. Claimed: a text that needs no
/// escapes stands as it is between quotation marks, and for any other text
/// the result is a function of the text, named [`escaped_debug`].
#[verifier::external_body]
fn std_debug(s: &str) -> (res: String)
    ensures
        is_plain(s@) ==> res@ == seq!['"'] + s@ + seq!['"'],
        !is_plain(s@) ==> res@ == escaped_debug(s@),
{
    format!("{:?}", s)
}

/// A text between quotation marks, as it is shown to developers.
pub fn show_debug(s: &str) -> (res: String)
    ensures
        res@ == debug_text(s@),
{
    std_debug(s)
}

} // verus!
