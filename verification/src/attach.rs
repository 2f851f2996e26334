//! Attachment classification: finding the leaf parts that represent
//! attachments, resolving and sanitizing their filenames, and the inline
//! flag.

use vstd::prelude::*;

use crate::mime::{
    disposition_lower, disposition_spec, header_first, header_first_spec, parse_param,
    parse_param_spec, MimePart,
};
use crate::text::{
    chars_to_string, lower_seq, lower_vec, starts_with_chars, starts_with_seq, str_to_chars,
    trim_chars, trim_spec,
};

verus! {

/// The filename parameter of Content-Disposition, with the `name` parameter
/// of Content-Type as fallback.
pub open spec fn ct_name_spec(p: MimePart) -> Option<Seq<char>> {
    match header_first_spec(p.headers@, "Content-Type"@) {
        Some(ct) => parse_param_spec(ct, "name"@),
        None => None,
    }
}

/// The resolved filename of a part, when any of its headers carries one.
pub open spec fn filename_spec(p: MimePart) -> Option<Seq<char>> {
    match header_first_spec(p.headers@, "Content-Disposition"@) {
        Some(cd) => match parse_param_spec(cd, "filename"@) {
            Some(f) => Some(f),
            None => ct_name_spec(p),
        },
        None => ct_name_spec(p),
    }
}

/// A leaf represents an attachment when it is not body text (`text/plain`
/// and `text/html` are reserved for body selection) and it either is
/// disposed as an attachment, is disposed inline with a filename, or
/// carries a filename with no explicit disposition.
pub open spec fn is_attachment_part_spec(p: MimePart) -> bool {
    &&& p.children@.len() == 0
    &&& !starts_with_seq(lower_seq(p.mime_type@), "text/plain"@)
    &&& !starts_with_seq(lower_seq(p.mime_type@), "text/html"@)
    &&& (starts_with_seq(disposition_spec(p), "attachment"@) || (starts_with_seq(
        disposition_spec(p),
        "inline"@,
    ) && filename_spec(p) is Some) || filename_spec(p) is Some)
}

/// A part is flagged inline when its disposition starts with `inline` or it
/// carries a Content-ID header.
pub open spec fn is_inline_spec(p: MimePart) -> bool {
    starts_with_seq(disposition_spec(p), "inline"@) || header_first_spec(
        p.headers@,
        "Content-ID"@,
    ) is Some
}

/// The attachment leaves under `p`, in document (depth-first) order.
pub open spec fn attachment_parts_spec(p: MimePart) -> Seq<MimePart>
    decreases p, 0int,
{
    if p.children@.len() == 0 {
        if is_attachment_part_spec(p) {
            seq![p]
        } else {
            Seq::empty()
        }
    } else {
        attachment_parts_from(p.children@, 0)
    }
}

/// The attachment leaves of the children from index `i` on.
pub open spec fn attachment_parts_from(cs: Seq<MimePart>, i: int) -> Seq<MimePart>
    decreases cs, cs.len() - i,
{
    if 0 <= i && i < cs.len() {
        attachment_parts_spec(cs[i]) + attachment_parts_from(cs, i + 1)
    } else {
        Seq::empty()
    }
}

/// The resolved filename of a part: the Content-Disposition `filename`
/// parameter, else the Content-Type `name` parameter.
pub fn parse_filename_from_headers(part: &MimePart) -> (r: Option<String>)
    ensures
        r is Some <==> filename_spec(*part) is Some,
        r matches Some(v) ==> Some(v@) == filename_spec(*part),
{
    match header_first(part, "Content-Disposition") {
        Some(cd) => {
            match parse_param(cd.as_str(), "filename") {
                Some(fname) => Some(fname),
                None => ct_name(part),
            }
        },
        None => ct_name(part),
    }
}

fn ct_name(part: &MimePart) -> (r: Option<String>)
    ensures
        r is Some <==> ct_name_spec(*part) is Some,
        r matches Some(v) ==> Some(v@) == ct_name_spec(*part),
{
    match header_first(part, "Content-Type") {
        Some(ct) => parse_param(ct.as_str(), "name"),
        None => None,
    }
}

/// Whether a leaf part should be treated as an attachment.
pub fn is_attachment_part(part: &MimePart) -> (r: bool)
    ensures
        r == is_attachment_part_spec(*part),
{
    if part.children.len() > 0 {
        return false;
    }
    let ctype = lower_vec(&str_to_chars(part.mime_type.as_str()));
    let plain = str_to_chars("text/plain");
    let html = str_to_chars("text/html");
    if starts_with_chars(&ctype, &plain) || starts_with_chars(&ctype, &html) {
        return false;
    }
    let cd = disposition_lower(part);
    let attachment_marker = str_to_chars("attachment");
    let inline_marker = str_to_chars("inline");
    let has_filename = parse_filename_from_headers(part).is_some();
    if starts_with_chars(&cd, &attachment_marker) {
        return true;
    }
    if starts_with_chars(&cd, &inline_marker) && has_filename {
        return true;
    }
    has_filename
}

/// Whether the part is flagged inline.
pub fn is_inline_part(part: &MimePart) -> (r: bool)
    ensures
        r == is_inline_spec(*part),
{
    let cd = disposition_lower(part);
    let inline_marker = str_to_chars("inline");
    starts_with_chars(&cd, &inline_marker) || header_first(part, "Content-ID").is_some()
}

/// Collects references to the attachment leaves under `mail`, in document
/// order, appending to `out`.
pub fn collect_attachment_parts<'a>(mail: &'a MimePart, out: &mut Vec<&'a MimePart>)
    ensures
        final(out)@.map_values(|q: &MimePart| *q) == old(out)@.map_values(|q: &MimePart| *q)
            + attachment_parts_spec(*mail),
    decreases *mail, 0int,
{
    let child_count = mail.children.len();
    if child_count == 0 {
        let ghost prev = out@.map_values(|q: &MimePart| *q);
        if is_attachment_part(mail) {
            out.push(mail);
            proof {
                assert(out@.map_values(|q: &MimePart| *q) =~= prev + seq![*mail]);
            }
        } else {
            proof {
                assert(out@.map_values(|q: &MimePart| *q) =~= prev + attachment_parts_spec(*mail));
            }
        }
        return ;
    }
    let ghost cs = mail.children@;
    let ghost base = out@.map_values(|q: &MimePart| *q);
    for j in 0..child_count
        invariant
            child_count == mail.children@.len(),
            cs == mail.children@,
            base + attachment_parts_from(cs, 0) == out@.map_values(|q: &MimePart| *q)
                + attachment_parts_from(cs, j as int),
        decreases *mail, child_count - j,
    {
        collect_attachment_parts(&mail.children[j], out);
    }
    proof {
        assert(base + attachment_parts_from(cs, 0) =~= out@.map_values(|q: &MimePart| *q));
    }
}

/// The classification law for a non-text leaf: an inline disposition
/// always sets the inline flag; an inline disposition with a filename, or
/// an attachment disposition, classifies the part as an attachment; and an
/// attachment-disposed part with no Content-ID header is not inline.
pub proof fn lemma_attachment_classification(p: MimePart)
    requires
        p.children@.len() == 0,
        !starts_with_seq(lower_seq(p.mime_type@), "text/plain"@),
        !starts_with_seq(lower_seq(p.mime_type@), "text/html"@),
    ensures
        starts_with_seq(disposition_spec(p), "inline"@) ==> is_inline_spec(p),
        starts_with_seq(disposition_spec(p), "inline"@) && filename_spec(p) is Some
            ==> is_attachment_part_spec(p),
        starts_with_seq(disposition_spec(p), "attachment"@) ==> is_attachment_part_spec(p),
        starts_with_seq(disposition_spec(p), "attachment"@) && header_first_spec(
            p.headers@,
            "Content-ID"@,
        ) is None ==> !is_inline_spec(p),
{
    reveal_strlit("attachment");
    reveal_strlit("inline");
    if starts_with_seq(disposition_spec(p), "attachment"@) && starts_with_seq(
        disposition_spec(p),
        "inline"@,
    ) {
        assert(disposition_spec(p).subrange(0, "attachment"@.len() as int)[0] == 'a');
        assert(disposition_spec(p).subrange(0, "inline"@.len() as int)[0] == 'i');
        assert(disposition_spec(p)[0] == 'a' && disposition_spec(p)[0] == 'i');
    }
}

/// Replaces path separators with underscores, strips NUL, CR and LF, and
/// leaves every other character unchanged.
pub open spec fn sanitize_map(s: Seq<char>) -> Seq<char>
    decreases s.len(),
{
    if s.len() == 0 {
        Seq::empty()
    } else {
        (if s[0] == '\\' || s[0] == '/' {
            seq!['_']
        } else if s[0] == '\u{0}' || s[0] == '\r' || s[0] == '\n' {
            Seq::empty()
        } else {
            seq![s[0]]
        }) + sanitize_map(s.drop_first())
    }
}

/// The sanitized filename: a blank name falls back, path separators become
/// underscores, control characters vanish, and the result is capped at 200
/// characters.
pub open spec fn sanitize_filename_spec(value: Seq<char>, fallback: Seq<char>) -> Seq<char> {
    let base = if trim_spec(value).len() == 0 {
        fallback
    } else {
        trim_spec(value)
    };
    let mapped = sanitize_map(base);
    if mapped.len() > 200 {
        mapped.take(200)
    } else {
        mapped
    }
}

/// Sanitizes a filename for use in output paths and storage keys.
pub fn sanitize_filename(value: &str, fallback: &str) -> (r: String)
    ensures
        r@ == sanitize_filename_spec(value@, fallback@),
{
    let value_chars = str_to_chars(value);
    let trimmed = trim_chars(&value_chars);
    let base = if trimmed.len() == 0 {
        str_to_chars(fallback)
    } else {
        trimmed
    };
    let n = base.len();
    let mut mapped: Vec<char> = Vec::new();
    proof {
        assert(base@.skip(0) =~= base@);
    }
    for i in 0..n
        invariant
            n == base@.len(),
            sanitize_map(base@) == mapped@ + sanitize_map(base@.skip(i as int)),
        decreases n - i,
    {
        proof {
            assert(base@.skip(i as int)[0] == base@[i as int]);
            assert(base@.skip(i as int).drop_first() =~= base@.skip(i + 1));
        }
        let c = base[i];
        if c == '\\' || c == '/' {
            mapped.push('_');
        } else if c == '\u{0}' || c == '\r' || c == '\n' {
        } else {
            mapped.push(c);
        }
    }
    proof {
        assert(base@.skip(n as int) =~= Seq::<char>::empty());
    }
    if mapped.len() > 200 {
        let capped = crate::text::sub_vec(&mapped, 0, 200);
        proof {
            assert(capped@ =~= sanitize_map(base@).take(200));
        }
        return chars_to_string(&capped);
    }
    chars_to_string(&mapped)
}

/// No character of the mapped name is a path separator or control byte.
proof fn lemma_sanitize_map_clean(s: Seq<char>)
    ensures
        forall|i: int|
            0 <= i < sanitize_map(s).len() ==> {
                let c = #[trigger] sanitize_map(s)[i];
                c != '/' && c != '\\' && c != '\u{0}' && c != '\r' && c != '\n'
            },
    decreases s.len(),
{
    if s.len() > 0 {
        lemma_sanitize_map_clean(s.drop_first());
        let head: Seq<char> = if s[0] == '\\' || s[0] == '/' {
            seq!['_']
        } else if s[0] == '\u{0}' || s[0] == '\r' || s[0] == '\n' {
            Seq::empty()
        } else {
            seq![s[0]]
        };
        assert forall|i: int|
            0 <= i < sanitize_map(s).len() implies {
            let c = #[trigger] sanitize_map(s)[i];
            c != '/' && c != '\\' && c != '\u{0}' && c != '\r' && c != '\n'
        } by {
            if i >= head.len() {
                assert(sanitize_map(s)[i] == sanitize_map(s.drop_first())[i - head.len()]);
            }
        }
    }
}

/// The sanitization law: whatever the input and fallback, the result never
/// exceeds 200 characters and carries no path separator, NUL, CR or LF, so
/// no path traversal survives into an output path or storage key.
pub proof fn lemma_sanitize_no_traversal(value: Seq<char>, fallback: Seq<char>)
    ensures
        sanitize_filename_spec(value, fallback).len() <= 200,
        forall|i: int|
            0 <= i < sanitize_filename_spec(value, fallback).len() ==> {
                let c = #[trigger] sanitize_filename_spec(value, fallback)[i];
                c != '/' && c != '\\' && c != '\u{0}' && c != '\r' && c != '\n'
            },
{
    let base = if trim_spec(value).len() == 0 {
        fallback
    } else {
        trim_spec(value)
    };
    lemma_sanitize_map_clean(base);
}

} // verus!
