//! The library's model of a parsed MIME tree, and the header operations on
//! it: case-insensitive first/all lookup, disposition tests, and parameter
//! extraction from `;`-delimited header values.
//!
//! A `MimePart` holds, as plain values, exactly what the pipeline reads from
//! one node of an externally parsed message: the MIME type, the ordered
//! header list, the ordered children, and the decoded text or raw body of a
//! leaf (`None` where decoding failed).

use vstd::prelude::*;

use crate::text::{
    chars_eq, chars_to_string, find_char, find_char_spec, lemma_find_char_spec, lower_seq,
    lower_vec, starts_with_chars, starts_with_seq, str_to_chars, sub_vec, trim_chars, trim_char_spec,
    trim_match_char, trim_spec,
};

verus! {

/// One header: a name and its decoded value, in message order.
pub struct MimeHeader {
    pub name: String,
    pub value: String,
}

/// One node of a parsed MIME tree.
pub struct MimePart {
    /// The node's MIME type as reported by the parser, e.g. `text/plain`.
    pub mime_type: String,
    /// The node's headers, in order.
    pub headers: Vec<MimeHeader>,
    /// Child parts, in document order; empty for a leaf.
    pub children: Vec<MimePart>,
    /// The decoded text body of a leaf, when decoding succeeded.
    pub body_text: Option<String>,
    /// The decoded raw bytes of a leaf, when decoding succeeded.
    pub body_raw: Option<Vec<u8>>,
}

/// The first header whose name matches case-insensitively, untrimmed.
pub open spec fn first_match_spec(hs: Seq<MimeHeader>, name: Seq<char>) -> Option<Seq<char>>
    decreases hs.len(),
{
    if hs.len() == 0 {
        None
    } else if lower_seq(hs[0].name@) == lower_seq(name) {
        Some(hs[0].value@)
    } else {
        first_match_spec(hs.drop_first(), name)
    }
}

/// The first matching header value, trimmed; absent when no header matches
/// or the matching value trims to nothing.
pub open spec fn header_first_spec(hs: Seq<MimeHeader>, name: Seq<char>) -> Option<Seq<char>> {
    match first_match_spec(hs, name) {
        Some(v) => if trim_spec(v).len() > 0 {
            Some(trim_spec(v))
        } else {
            None
        },
        None => None,
    }
}

/// Every matching header value, trimmed, with empty values dropped.
pub open spec fn header_all_spec(hs: Seq<MimeHeader>, name: Seq<char>) -> Seq<Seq<char>>
    decreases hs.len(),
{
    if hs.len() == 0 {
        Seq::empty()
    } else {
        let rest = header_all_spec(hs.drop_first(), name);
        if lower_seq(hs[0].name@) == lower_seq(name) && trim_spec(hs[0].value@).len() > 0 {
            seq![trim_spec(hs[0].value@)] + rest
        } else {
            rest
        }
    }
}

/// The part's Content-Disposition, lowercased; empty when absent.
pub open spec fn disposition_spec(p: MimePart) -> Seq<char> {
    match header_first_spec(p.headers@, "Content-Disposition"@) {
        Some(v) => lower_seq(v),
        None => Seq::empty(),
    }
}

/// The part is explicitly disposed as an attachment.
pub open spec fn attachment_disposition_spec(p: MimePart) -> bool {
    starts_with_seq(disposition_spec(p), "attachment"@)
}

/// The value split at `;`, as `str::split` does: a trailing separator opens
/// a final empty piece, and an empty value yields one empty piece.
pub open spec fn split_semi_spec(s: Seq<char>) -> Seq<Seq<char>>
    decreases s.len(),
{
    let j = find_char_spec(s, ';');
    if 0 <= j && j < s.len() {
        seq![s.take(j)] + split_semi_spec(s.skip(j + 1))
    } else {
        seq![s]
    }
}

/// Scans `;`-delimited pieces for `key=value`, matching the key
/// case-insensitively against the already-lowercased `key`. Empty pieces are
/// skipped; a piece with no `=` aborts the whole scan; a matching value is
/// unquoted and trimmed, and an empty result counts as absent.
pub open spec fn param_from_pieces(ps: Seq<Seq<char>>, key: Seq<char>) -> Option<Seq<char>>
    decreases ps.len(),
{
    if ps.len() == 0 {
        None
    } else {
        let p = trim_spec(ps[0]);
        if p.len() == 0 {
            param_from_pieces(ps.drop_first(), key)
        } else {
            let e = find_char_spec(p, '=');
            if !(0 <= e && e < p.len()) {
                None
            } else {
                let k = lower_seq(trim_spec(p.take(e)));
                let v = trim_spec(p.skip(e + 1));
                if k != key {
                    param_from_pieces(ps.drop_first(), key)
                } else {
                    let unq = trim_spec(trim_char_spec(trim_char_spec(v, '"'), '\''));
                    if unq.len() == 0 {
                        None
                    } else {
                        Some(unq)
                    }
                }
            }
        }
    }
}

/// The value of the named parameter of a `;`-delimited header value; the
/// text before the first `;` is the value proper and is never a parameter.
pub open spec fn parse_param_spec(h: Seq<char>, key: Seq<char>) -> Option<Seq<char>> {
    param_from_pieces(split_semi_spec(h).drop_first(), lower_seq(key))
}

/// First matching header value, trimmed; `None` for a missing header or one
/// that trims to nothing.
pub fn header_first(part: &MimePart, name: &str) -> (r: Option<String>)
    ensures
        r is Some <==> header_first_spec(part.headers@, name@) is Some,
        r matches Some(v) ==> Some(v@) == header_first_spec(part.headers@, name@),
{
    let key = lower_vec(&str_to_chars(name));
    let n = part.headers.len();
    proof {
        assert(part.headers@.skip(0) =~= part.headers@);
    }
    for i in 0..n
        invariant
            n == part.headers@.len(),
            key@ == lower_seq(name@),
            first_match_spec(part.headers@, name@) == first_match_spec(
                part.headers@.skip(i as int),
                name@,
            ),
    {
        proof {
            assert(part.headers@.skip(i as int)[0] == part.headers@[i as int]);
            assert(part.headers@.skip(i as int).drop_first() =~= part.headers@.skip(i + 1));
        }
        let hname = lower_vec(&str_to_chars(part.headers[i].name.as_str()));
        if chars_eq(&hname, &key) {
            let value = str_to_chars(part.headers[i].value.as_str());
            let trimmed = trim_chars(&value);
            if trimmed.len() > 0 {
                return Some(chars_to_string(&trimmed));
            }
            return None;
        }
    }
    proof {
        assert(part.headers@.skip(n as int) =~= Seq::<MimeHeader>::empty());
    }
    None
}

/// Every matching header value, trimmed, empties dropped, in order.
pub fn header_all(part: &MimePart, name: &str) -> (r: Vec<String>)
    ensures
        r@.map_values(|v: String| v@) == header_all_spec(part.headers@, name@),
{
    let key = lower_vec(&str_to_chars(name));
    let n = part.headers.len();
    let mut r: Vec<String> = Vec::new();
    proof {
        assert(part.headers@.skip(0) =~= part.headers@);
        assert(r@.map_values(|v: String| v@) =~= Seq::<Seq<char>>::empty());
    }
    for i in 0..n
        invariant
            n == part.headers@.len(),
            key@ == lower_seq(name@),
            header_all_spec(part.headers@, name@) == r@.map_values(|v: String| v@)
                + header_all_spec(part.headers@.skip(i as int), name@),
    {
        proof {
            assert(part.headers@.skip(i as int)[0] == part.headers@[i as int]);
            assert(part.headers@.skip(i as int).drop_first() =~= part.headers@.skip(i + 1));
        }
        let ghost prev = r@.map_values(|v: String| v@);
        let hname = lower_vec(&str_to_chars(part.headers[i].name.as_str()));
        if chars_eq(&hname, &key) {
            let value = str_to_chars(part.headers[i].value.as_str());
            let trimmed = trim_chars(&value);
            if trimmed.len() > 0 {
                r.push(chars_to_string(&trimmed));
                proof {
                    assert(r@.map_values(|v: String| v@) =~= prev + seq![
                        trim_spec(part.headers@[i as int].value@),
                    ]);
                }
            }
        }
    }
    proof {
        assert(part.headers@.skip(n as int) =~= Seq::<MimeHeader>::empty());
        assert(r@.map_values(|v: String| v@) + Seq::<Seq<char>>::empty() =~= r@.map_values(
            |v: String| v@,
        ));
    }
    r
}

/// The part's lowercased Content-Disposition; empty when the header is
/// absent or blank.
pub fn disposition_lower(part: &MimePart) -> (r: Vec<char>)
    ensures
        r@ == disposition_spec(*part),
{
    match header_first(part, "Content-Disposition") {
        Some(cd) => lower_vec(&str_to_chars(cd.as_str())),
        None => Vec::new(),
    }
}

/// Whether the part is explicitly disposed as an attachment; guards body
/// selection against `text/plain` attachments.
pub fn is_attachment_disposition(part: &MimePart) -> (r: bool)
    ensures
        r == attachment_disposition_spec(*part),
{
    let cd = disposition_lower(part);
    let marker = str_to_chars("attachment");
    starts_with_chars(&cd, &marker)
}

/// The header value split at `;` into pieces.
fn split_semi(s: &Vec<char>) -> (r: Vec<Vec<char>>)
    ensures
        r@.map_values(|p: Vec<char>| p@) == split_semi_spec(s@),
{
    let n = s.len();
    let mut r: Vec<Vec<char>> = Vec::new();
    let mut i: usize = 0;
    proof {
        assert(s@.skip(0) =~= s@);
        assert(r@.map_values(|p: Vec<char>| p@) =~= Seq::<Seq<char>>::empty());
    }
    loop
        invariant_except_break
            i <= n,
            n == s@.len(),
            split_semi_spec(s@) == r@.map_values(|p: Vec<char>| p@) + split_semi_spec(
                s@.skip(i as int),
            ),
        ensures
            r@.map_values(|p: Vec<char>| p@) == split_semi_spec(s@),
        decreases n - i,
    {
        let rest = sub_vec(s, i, n);
        proof {
            assert(rest@ =~= s@.skip(i as int));
        }
        let j = find_char(&rest, ';');
        let ghost prev = r@.map_values(|p: Vec<char>| p@);
        proof {
            lemma_find_char_spec(rest@, ';');
        }
        if j == rest.len() {
            r.push(rest);
            proof {
                assert(r@.map_values(|p: Vec<char>| p@) =~= prev + seq![s@.skip(i as int)]);
            }
            break;
        } else {
            let piece = sub_vec(&rest, 0, j);
            r.push(piece);
            proof {
                assert(piece@ =~= s@.skip(i as int).take(j as int));
                assert(r@.map_values(|p: Vec<char>| p@) =~= prev + seq![
                    s@.skip(i as int).take(j as int),
                ]);
                assert(s@.skip(i as int).skip(j + 1) =~= s@.skip(i + j + 1));
            }
            i = i + j + 1;
        }
    }
    r
}

/// The value of a `;`-delimited header parameter, matched
/// case-insensitively, unquoted and trimmed; empty results count as absent.
pub fn parse_param(header_value: &str, key: &str) -> (r: Option<String>)
    ensures
        r is Some <==> parse_param_spec(header_value@, key@) is Some,
        r matches Some(v) ==> Some(v@) == parse_param_spec(header_value@, key@),
{
    let h = str_to_chars(header_value);
    let key_l = lower_vec(&str_to_chars(key));
    let pieces = split_semi(&h);
    let count = pieces.len();
    let ghost all = pieces@.map_values(|p: Vec<char>| p@);
    proof {
        assert(split_semi_spec(h@).len() >= 1);
        assert(all.skip(1) =~= split_semi_spec(h@).drop_first());
    }
    let mut i: usize = 1;
    while i < count
        invariant
            count == pieces@.len(),
            1 <= i <= count,
            all == pieces@.map_values(|p: Vec<char>| p@),
            key_l@ == lower_seq(key@),
            parse_param_spec(header_value@, key@) == param_from_pieces(
                all.skip(i as int),
                lower_seq(key@),
            ),
        decreases count - i,
    {
        proof {
            assert(all.skip(i as int)[0] == all[i as int]);
            assert(all.skip(i as int).drop_first() =~= all.skip(i + 1));
        }
        let p = trim_chars(&pieces[i]);
        if p.len() > 0 {
            let e = find_char(&p, '=');
            proof {
                lemma_find_char_spec(p@, '=');
            }
            if e == p.len() {
                return None;
            }
            let k = lower_vec(&trim_chars(&sub_vec(&p, 0, e)));
            proof {
                assert(p@.subrange(0, e as int) =~= p@.take(e as int));
            }
            let v = trim_chars(&sub_vec(&p, e + 1, p.len()));
            proof {
                assert(p@.subrange(e + 1, p@.len() as int) =~= p@.skip(e + 1));
            }
            if chars_eq(&k, &key_l) {
                let unq = trim_chars(&trim_match_char(&trim_match_char(&v, '"'), '\''));
                if unq.len() == 0 {
                    return None;
                }
                return Some(chars_to_string(&unq));
            }
        }
        i += 1;
    }
    proof {
        assert(all.skip(count as int) =~= Seq::<Seq<char>>::empty());
    }
    None
}

} // verus!
