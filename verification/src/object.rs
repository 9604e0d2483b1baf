//! Object content: a file or blob fetched by its identifier, with its
//! resolved name, extension, and encoded content.
//!
//! The external tool hands back raw bytes.  Image content (by
//! extension) is base64-encoded; everything else must be UTF-8 text.
//! The object's path is resolved by scanning the tool's full object
//! listing for the first line holding the identifier.

use base64::Engine;
use vstd::prelude::*;
use vstd::string::*;
use vstd::utf8::{decode_utf8, valid_utf8};

use crate::errors::GitApiError;
use crate::strutil::{
    contains_seq, contains_sub, lemma_filter_last, lemma_filter_none, split_on, split_str, str_eq,
    trim_back, trim_end_slice,
};

verus! {

/// An object's content as served: resolved name, content text (UTF-8 or
/// base64), size as reported by the tool, and file extension (or the
/// literal marker `diff` when the name has none).
#[derive(Debug, Clone)]
pub struct Object {
    pub name: String,
    pub content: String,
    pub size: String,
    pub ext: String,
}

/// The mathematical value of an `Object`.
pub ghost struct ObjectView {
    pub name: Seq<char>,
    pub content: Seq<char>,
    pub size: Seq<char>,
    pub ext: Seq<char>,
}

impl View for Object {
    type V = ObjectView;

    open spec fn view(&self) -> ObjectView {
        ObjectView { name: self.name@, content: self.content@, size: self.size@, ext: self.ext@ }
    }
}

/// What the standard no-padding base64 encoding of a byte sequence
/// reads as.  Stated, not defined: the encoding is a function of the
/// input bytes alone, and the trusted wrapper below is its only source.
pub uninterp spec fn base64_no_pad_of(bytes: Seq<u8>) -> Seq<char>;

/// Relies on base64's `STANDARD_NO_PAD` engine: encodes with the
/// standard alphabet and no padding, a pure function of the bytes.
#[verifier::external_body]
fn encode_base64(bytes: &Vec<u8>) -> (r: String)
    requires
        bytes@.len() <= 0x1000000000000000,
    ensures
        r@ == base64_no_pad_of(bytes@),
{
    base64::engine::general_purpose::STANDARD_NO_PAD.encode(bytes)
}

/// Relies on `String::from_utf8`: succeeds exactly on valid UTF-8 and
/// decodes it.
#[verifier::external_body]
fn string_from_utf8(bytes: Vec<u8>) -> (r: Option<String>)
    ensures
        r is Some <==> valid_utf8(bytes@),
        r matches Some(s) ==> s@ == decode_utf8(bytes@),
{
    String::from_utf8(bytes).ok()
}

/// What captured tool output is served as: base64 when binary was
/// requested, otherwise the bytes decoded as UTF-8 or an
/// `InvalidEncoding` error.
pub open spec fn spec_tool_output(bytes: Seq<u8>, binary: bool) -> Result<Seq<char>, GitApiError> {
    if binary {
        Ok(base64_no_pad_of(bytes))
    } else if valid_utf8(bytes) {
        Ok(decode_utf8(bytes))
    } else {
        Err(GitApiError::InvalidEncoding)
    }
}

/// Turn captured tool output bytes into served text: base64 for binary
/// output, UTF-8 decoding otherwise.
///
/// Fails only in text mode, with `InvalidEncoding`, exactly when the
/// bytes are not valid UTF-8.
pub fn finish_tool_output(stdout: Vec<u8>, binary: bool) -> (r: Result<String, GitApiError>)
    requires
        stdout@.len() <= 0x1000000000000000,
    ensures
        r is Ok <==> spec_tool_output(stdout@, binary) is Ok,
        r matches Ok(s) ==> Ok::<Seq<char>, GitApiError>(s@) == spec_tool_output(stdout@, binary),
        r matches Err(e) ==> Err::<Seq<char>, GitApiError>(e) == spec_tool_output(stdout@, binary),
{
    if binary {
        Ok(encode_base64(&stdout))
    } else {
        match string_from_utf8(stdout) {
            Some(s) => Ok(s),
            None => Err(GitApiError::InvalidEncoding),
        }
    }
}

/// The marker served in place of an extension when the name has none.
pub open spec fn diff_marker() -> Seq<char> {
    seq!['d', 'i', 'f', 'f']
}

/// The extension of a name: the piece after its last dot, trimmed at
/// the end; a name with no dot gets the `diff` marker.
pub open spec fn spec_extension(name: Seq<char>) -> Seq<char> {
    let parts = split_on(name, '.');
    let e = trim_back(parts.last());
    if e == name {
        diff_marker()
    } else {
        e
    }
}

/// The extensions treated as images and served base64-encoded.
pub open spec fn is_image_ext(e: Seq<char>) -> bool {
    e == seq!['p', 'n', 'g'] || e == seq!['j', 'p', 'g'] || e == seq!['j', 'p', 'e', 'g']
}

/// The extension of an object name.
pub fn extension_of(name: &str) -> (r: String)
    ensures
        r@ == spec_extension(name@),
{
    let parts = split_str(name, '.');
    let e = trim_end_slice(parts[parts.len() - 1].as_str());
    proof {
        let pv = parts@.map_values(|p: String| p@);
        assert(pv[pv.len() - 1] == pv.last());
        reveal_strlit("diff");
        assert("diff"@ =~= diff_marker());
    }
    if str_eq(e, name) {
        String::from_str("diff")
    } else {
        String::from_str(e)
    }
}

/// Whether an extension is served as an image.
fn image_ext(e: &str) -> (r: bool)
    ensures
        r == is_image_ext(e@),
{
    proof {
        reveal_strlit("png");
        reveal_strlit("jpg");
        reveal_strlit("jpeg");
        assert("png"@ =~= seq!['p', 'n', 'g']);
        assert("jpg"@ =~= seq!['j', 'p', 'g']);
        assert("jpeg"@ =~= seq!['j', 'p', 'e', 'g']);
    }
    str_eq(e, "png") || str_eq(e, "jpg") || str_eq(e, "jpeg")
}

impl Object {
    /// Assemble an object from its resolved name, the tool's raw
    /// content bytes, and its reported size.
    ///
    /// The extension decides the content encoding: an image extension
    /// is base64-encoded, anything else must be UTF-8 text and fails
    /// with `InvalidEncoding` otherwise.
    pub fn from_parts(name: String, content_bytes: Vec<u8>, size: String) -> (r: Result<
        Object,
        GitApiError,
    >)
        requires
            content_bytes@.len() <= 0x1000000000000000,
        ensures
            ({
                let out = spec_tool_output(content_bytes@, is_image_ext(spec_extension(name@)));
                &&& (r is Ok <==> out is Ok)
                &&& (r matches Ok(o) ==> out matches Ok(c) && o@.name == name@ && o@.content == c
                    && o@.size == size@ && o@.ext == spec_extension(name@))
                &&& (r matches Err(e) ==> Err::<Seq<char>, GitApiError>(e) == out)
            }),
    {
        let ext = extension_of(name.as_str());
        let binary = image_ext(ext.as_str());
        let content = match finish_tool_output(content_bytes, binary) {
            Ok(c) => c,
            Err(e) => {
                return Err(e);
            },
        };
        Ok(Object { name, content, size, ext })
    }
}

/// The last whitespace-separated token of a line, or `NoLastElement`
/// when the line has none.
pub open spec fn spec_last_token(l: Seq<char>) -> Result<Seq<char>, GitApiError> {
    let ps = split_on(l, ' ').filter(|p: Seq<char>| p.len() > 0);
    if ps.len() == 0 {
        Err(GitApiError::NoLastElement)
    } else {
        Ok(ps.last())
    }
}

/// The path resolved for an object id from the tool's full object
/// listing: the last token of the first line holding the id, or
/// `NoLastElement` when no line holds it.
pub open spec fn spec_find_path(ls: Seq<Seq<char>>, hash: Seq<char>) -> Result<
    Seq<char>,
    GitApiError,
>
    decreases ls.len(),
{
    if ls.len() == 0 {
        Err(GitApiError::NoLastElement)
    } else if contains_seq(ls[0], hash) {
        spec_last_token(ls[0])
    } else {
        spec_find_path(ls.drop_first(), hash)
    }
}

/// Resolve an object's path from the tool's object listing.
///
/// Scans the listing for the first line holding the identifier and
/// returns that line's last whitespace-separated token; no match, or a
/// matching line with no tokens, is `NoLastElement`.
pub fn get_filename_from_hash(object_listing: &str, hash: &str) -> (r: Result<String, GitApiError>)
    requires
        hash@.len() > 0,
    ensures
        ({
            let spec = spec_find_path(split_on(object_listing@, '\n'), hash@);
            &&& (r is Ok <==> spec is Ok)
            &&& (r matches Ok(p) ==> Ok::<Seq<char>, GitApiError>(p@) == spec)
            &&& (r matches Err(e) ==> Err::<Seq<char>, GitApiError>(e) == spec)
        }),
{
    let lines = split_str(object_listing, '\n');
    let ghost lv = lines@.map_values(|p: String| p@);
    let ghost n = lv.len();
    let mut i: usize = 0;
    proof {
        assert(lv.subrange(0, n as int) =~= lv);
    }
    while i < lines.len()
        invariant
            0 <= i <= lv.len(),
            n == lv.len(),
            lv == lines@.map_values(|p: String| p@),
            lv == split_on(object_listing@, '\n'),
            hash@.len() > 0,
            spec_find_path(lv.subrange(i as int, n as int), hash@) == spec_find_path(lv, hash@),
        decreases lv.len() - i,
    {
        let ghost sub = lv.subrange(i as int, n as int);
        proof {
            assert(sub[0] == lv[i as int]);
            assert(sub.drop_first() =~= lv.subrange(i + 1, n as int));
        }
        let line = lines[i].as_str();
        if contains_sub(line, hash) {
            return last_token(line);
        }
        i += 1;
    }
    proof {
        assert(lv.subrange(n as int, n as int) =~= Seq::<Seq<char>>::empty());
    }
    Err(GitApiError::NoLastElement)
}

/// The last whitespace-separated token of a line.
fn last_token(line: &str) -> (r: Result<String, GitApiError>)
    ensures
        r is Ok <==> spec_last_token(line@) is Ok,
        r matches Ok(p) ==> Ok::<Seq<char>, GitApiError>(p@) == spec_last_token(line@),
        r matches Err(e) ==> Err::<Seq<char>, GitApiError>(e) == spec_last_token(line@),
{
    let pieces = split_str(line, ' ');
    let ghost pv = pieces@.map_values(|p: String| p@);
    let ghost pred = |p: Seq<char>| p.len() > 0;
    let mut j: usize = pieces.len();
    while j > 0
        invariant
            0 <= j <= pv.len(),
            pv == pieces@.map_values(|p: String| p@),
            pv == split_on(line@, ' '),
            pred == (|p: Seq<char>| p.len() > 0),
            forall|k: int| j <= k < pv.len() ==> !pred(#[trigger] pv[k]),
        decreases j,
    {
        j -= 1;
        if pieces[j].as_str().unicode_len() > 0 {
            proof {
                lemma_filter_last(pv, pred, j as int);
            }
            return Ok(pieces[j].clone());
        }
    }
    proof {
        lemma_filter_none(pv, pred);
    }
    Err(GitApiError::NoLastElement)
}

} // verus!
