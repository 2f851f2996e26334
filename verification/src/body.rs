//! Body selection: walking the MIME tree for `text/plain` and `text/html`
//! candidates, scoring them through the banner filter, and the cross-format
//! override that replaces a banner-only plain-text body with a text
//! rendering of the HTML body.

use vstd::prelude::*;

use crate::banner::{
    alnum_len_after_strip, html_to_text_rough, is_mostly_external_banner, mostly_banner_spec,
    strip_banner_spec, strip_external_banner_lines, tag_strip_spec,
};
use crate::mime::{attachment_disposition_spec, is_attachment_disposition, MimePart};
use crate::text::{
    alnum_count, alnum_len, chars_to_string, lower_seq, lower_vec, starts_with_chars,
    starts_with_seq, str_to_chars, trim_chars, trim_spec,
};

verus! {

/// The part's lowercased MIME type starts with the target prefix.
pub open spec fn mime_matches(p: MimePart, prefix: Seq<char>) -> bool {
    starts_with_seq(lower_seq(p.mime_type@), prefix)
}

/// A leaf is a body candidate for a target type when its MIME type matches,
/// it is not disposed as an attachment, and it has a non-blank decoded body.
pub open spec fn body_candidate(p: MimePart, prefix: Seq<char>) -> bool {
    mime_matches(p, prefix) && !attachment_disposition_spec(p) && p.body_text is Some
        && trim_spec(p.body_text->0@).len() > 0
}

/// The candidate bodies under `p` for the target type, in document order.
pub open spec fn text_bodies_spec(p: MimePart, prefix: Seq<char>) -> Seq<Seq<char>>
    decreases p, 0int,
{
    if p.children@.len() == 0 {
        if body_candidate(p, prefix) {
            seq![p.body_text->0@]
        } else {
            Seq::empty()
        }
    } else {
        text_bodies_from(p.children@, 0, prefix)
    }
}

/// The candidate bodies of the children from index `i` on.
pub open spec fn text_bodies_from(cs: Seq<MimePart>, i: int, prefix: Seq<char>) -> Seq<Seq<char>>
    decreases cs, cs.len() - i,
{
    if 0 <= i && i < cs.len() {
        text_bodies_spec(cs[i], prefix) + text_bodies_from(cs, i + 1, prefix)
    } else {
        Seq::empty()
    }
}

/// The exclusion law: a part disposed as an attachment is never a body
/// candidate, whatever the target type, so an attached `text/plain` part
/// cannot be selected as the message body.
pub proof fn lemma_attachment_never_body(p: MimePart, prefix: Seq<char>)
    requires
        attachment_disposition_spec(p),
    ensures
        !body_candidate(p, prefix),
{
}

/// The first-win running maximum: the scan of `scores` from `i` with
/// current best index `bi` and best score `bs`, taking an entry only when
/// it strictly improves.
pub open spec fn best_step(scores: Seq<nat>, i: int, bi: int, bs: nat) -> (int, nat)
    decreases scores.len() - i,
{
    if 0 <= i && i < scores.len() {
        if scores[i] > bs {
            best_step(scores, i + 1, i, scores[i])
        } else {
            best_step(scores, i + 1, bi, bs)
        }
    } else {
        (bi, bs)
    }
}

/// The meaningful-content score of a plain-text candidate: its alphanumeric
/// length after the banner filter.
pub open spec fn text_score(c: Seq<char>) -> nat {
    alnum_count(strip_banner_spec(c))
}

/// The score of an HTML candidate: tags are stripped before the same
/// filter, so markup never counts as content.
pub open spec fn html_score(c: Seq<char>) -> nat {
    alnum_count(strip_banner_spec(tag_strip_spec(c, false)))
}

/// The chosen candidate: the highest-scoring one, first seen winning ties;
/// when no candidate scores above zero, the longest raw candidate instead;
/// absent only when there is no candidate at all.
pub open spec fn choose_best_spec(cands: Seq<Seq<char>>, scores: Seq<nat>) -> Option<Seq<char>> {
    if cands.len() == 0 {
        None
    } else {
        let pick = best_step(scores, 0, 0, 0);
        if pick.1 > 0 {
            Some(cands[pick.0])
        } else {
            let lp = best_step(cands.map_values(|c: Seq<char>| c.len()), 0, 0, 0);
            Some(cands[lp.0])
        }
    }
}

/// The chosen plain-text body of a tree.
pub open spec fn choose_text_spec(p: MimePart) -> Option<Seq<char>> {
    let cands = text_bodies_spec(p, "text/plain"@);
    choose_best_spec(cands, cands.map_values(|c: Seq<char>| text_score(c)))
}

/// The chosen HTML body of a tree.
pub open spec fn choose_html_spec(p: MimePart) -> Option<Seq<char>> {
    let cands = text_bodies_spec(p, "text/html"@);
    choose_best_spec(cands, cands.map_values(|c: Seq<char>| html_score(c)))
}

/// The final pair of bodies. A chosen plain-text body that is mostly banner
/// is replaced, when an HTML body exists, by the banner-filtered,
/// tag-stripped, trimmed derivation of the HTML body — kept only when that
/// derivation retains at least 20 alphanumeric characters, absent otherwise.
/// The HTML body itself is always stored unmodified.
pub open spec fn select_bodies_spec(p: MimePart) -> (Option<Seq<char>>, Option<Seq<char>>) {
    let bt = choose_text_spec(p);
    let bh = choose_html_spec(p);
    if bt is Some && bh is Some && mostly_banner_spec(bt->0) {
        let cand = trim_spec(strip_banner_spec(tag_strip_spec(bh->0, false)));
        if alnum_count(cand) >= 20 {
            (Some(cand), bh)
        } else {
            (None, bh)
        }
    } else {
        (bt, bh)
    }
}

/// Collects the candidate bodies for the target type under `mail`, in
/// document order, appending to `out`.
pub fn collect_text_bodies(mail: &MimePart, mime_prefix: &str, out: &mut Vec<String>)
    ensures
        final(out)@.map_values(|s: String| s@) == old(out)@.map_values(|s: String| s@)
            + text_bodies_spec(*mail, mime_prefix@),
    decreases *mail, 0int,
{
    let child_count = mail.children.len();
    if child_count == 0 {
        let ctype = lower_vec(&str_to_chars(mail.mime_type.as_str()));
        let prefix = str_to_chars(mime_prefix);
        if starts_with_chars(&ctype, &prefix) {
            if is_attachment_disposition(mail) {
                proof {
                    assert(final(out)@.map_values(|s: String| s@) =~= old(out)@.map_values(
                        |s: String| s@,
                    ) + text_bodies_spec(*mail, mime_prefix@));
                }
                return ;
            }
            match &mail.body_text {
                Some(body) => {
                    let chars = str_to_chars(body.as_str());
                    let trimmed = trim_chars(&chars);
                    if trimmed.len() > 0 {
                        let ghost prev = out@.map_values(|s: String| s@);
                        let copy = chars_to_string(&chars);
                        out.push(copy);
                        proof {
                            assert(out@.map_values(|s: String| s@) =~= prev + seq![
                                mail.body_text->0@,
                            ]);
                        }
                        return ;
                    }
                },
                None => {},
            }
        }
        proof {
            assert(final(out)@.map_values(|s: String| s@) =~= old(out)@.map_values(|s: String| s@)
                + text_bodies_spec(*mail, mime_prefix@));
        }
        return ;
    }
    let ghost cs = mail.children@;
    let ghost base = out@.map_values(|s: String| s@);
    for j in 0..child_count
        invariant
            child_count == mail.children@.len(),
            cs == mail.children@,
            base + text_bodies_from(cs, 0, mime_prefix@) == out@.map_values(|s: String| s@)
                + text_bodies_from(cs, j as int, mime_prefix@),
        decreases *mail, child_count - j,
    {
        collect_text_bodies(&mail.children[j], mime_prefix, out);
    }
    proof {
        assert(base + text_bodies_from(cs, 0, mime_prefix@) =~= out@.map_values(|s: String| s@));
    }
}

/// The highest-scoring candidate, computed by one pass that keeps the first
/// candidate to reach each strictly higher score.
fn pick_candidate(candidates: Vec<String>, use_html_score: bool) -> (r: Option<String>)
    ensures
        ({
            let cviews = candidates@.map_values(|s: String| s@);
            let scores = if use_html_score {
                cviews.map_values(|c: Seq<char>| html_score(c))
            } else {
                cviews.map_values(|c: Seq<char>| text_score(c))
            };
            &&& (r is Some <==> choose_best_spec(cviews, scores) is Some)
            &&& (r matches Some(v) ==> Some(v@) == choose_best_spec(cviews, scores))
        }),
{
    let n = candidates.len();
    if n == 0 {
        return None;
    }
    let ghost cviews = candidates@.map_values(|s: String| s@);
    let ghost scores = if use_html_score {
        cviews.map_values(|c: Seq<char>| html_score(c))
    } else {
        cviews.map_values(|c: Seq<char>| text_score(c))
    };
    let mut best_idx: usize = 0;
    let mut best_score: usize = 0;
    for idx in 0..n
        invariant
            n == candidates@.len(),
            cviews == candidates@.map_values(|s: String| s@),
            scores == (if use_html_score {
                cviews.map_values(|c: Seq<char>| html_score(c))
            } else {
                cviews.map_values(|c: Seq<char>| text_score(c))
            }),
            best_idx < n,
            best_step(scores, idx as int, best_idx as int, best_score as nat) == best_step(
                scores,
                0,
                0,
                0,
            ),
    {
        let score = alnum_len_after_strip(candidates[idx].as_str(), use_html_score);
        if score > best_score {
            best_score = score;
            best_idx = idx;
        }
    }
    let mut candidates = candidates;
    if best_score > 0 {
        let chosen = candidates.swap_remove(best_idx);
        return Some(chosen);
    }
    let mut long_idx: usize = 0;
    let mut long_len: usize = 0;
    let ghost lens = cviews.map_values(|c: Seq<char>| c.len());
    for idx in 0..n
        invariant
            n == candidates@.len(),
            cviews == candidates@.map_values(|s: String| s@),
            lens == cviews.map_values(|c: Seq<char>| c.len()),
            long_idx < n,
            best_step(lens, idx as int, long_idx as int, long_len as nat) == best_step(
                lens,
                0,
                0,
                0,
            ),
    {
        let l = candidates[idx].as_str().unicode_len();
        if l > long_len {
            long_len = l;
            long_idx = idx;
        }
    }
    let chosen = candidates.swap_remove(long_idx);
    Some(chosen)
}

/// The best plain-text body under `mail`: candidates are scored by their
/// alphanumeric length after banner filtering, the first highest wins, and
/// when every candidate scores zero the longest raw candidate is kept.
pub fn choose_best_body_text(mail: &MimePart) -> (r: Option<String>)
    ensures
        r is Some <==> choose_text_spec(*mail) is Some,
        r matches Some(v) ==> Some(v@) == choose_text_spec(*mail),
{
    let mut candidates: Vec<String> = Vec::new();
    collect_text_bodies(mail, "text/plain", &mut candidates);
    proof {
        assert(candidates@.map_values(|s: String| s@) =~= text_bodies_spec(*mail, "text/plain"@));
    }
    pick_candidate(candidates, false)
}

/// The best HTML body under `mail`, scored on its tag-stripped text.
pub fn choose_best_body_html(mail: &MimePart) -> (r: Option<String>)
    ensures
        r is Some <==> choose_html_spec(*mail) is Some,
        r matches Some(v) ==> Some(v@) == choose_html_spec(*mail),
{
    let mut candidates: Vec<String> = Vec::new();
    collect_text_bodies(mail, "text/html", &mut candidates);
    proof {
        assert(candidates@.map_values(|s: String| s@) =~= text_bodies_spec(*mail, "text/html"@));
    }
    pick_candidate(candidates, true)
}

/// Selects the stored plain-text and HTML bodies of one message. When the
/// chosen plain-text body is mostly an external-sender banner and an HTML
/// body exists, the stored plain-text body becomes the banner-filtered,
/// tag-stripped, trimmed HTML text if that keeps at least 20 alphanumeric
/// characters, and is dropped otherwise; the HTML body is stored unmodified.
pub fn select_email_bodies(mail: &MimePart) -> (r: (Option<String>, Option<String>))
    ensures
        r.0 is Some <==> select_bodies_spec(*mail).0 is Some,
        r.0 matches Some(v) ==> Some(v@) == select_bodies_spec(*mail).0,
        r.1 is Some <==> select_bodies_spec(*mail).1 is Some,
        r.1 matches Some(v) ==> Some(v@) == select_bodies_spec(*mail).1,
{
    let body_text = choose_best_body_text(mail);
    let body_html = choose_best_body_html(mail);
    match (body_text, body_html) {
        (Some(bt), Some(bh)) => {
            if is_mostly_external_banner(bt.as_str()) {
                let html_text = html_to_text_rough(bh.as_str());
                let stripped = strip_external_banner_lines(html_text.as_str());
                let cand_chars = trim_chars(&str_to_chars(stripped.as_str()));
                if alnum_len(&cand_chars) >= 20 {
                    (Some(chars_to_string(&cand_chars)), Some(bh))
                } else {
                    (None, Some(bh))
                }
            } else {
                (Some(bt), Some(bh))
            }
        },
        (bt, bh) => (bt, bh),
    }
}

} // verus!
