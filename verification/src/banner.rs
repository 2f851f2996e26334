//! Line-break normalization, the conservative external-sender-banner filter,
//! the rough HTML tag stripper used for scoring, and the "mostly banner"
//! classifier.

use vstd::prelude::*;

use crate::text::{
    alnum_count, alnum_len, chars_to_string, contains_chars, contains_seq, find_char,
    find_char_spec, lemma_find_char_spec, lower_seq, lower_vec, starts_with_chars,
    starts_with_seq, str_to_chars, sub_vec, trim_chars, trim_spec,
};

verus! {

/// CRLF and lone CR collapsed to LF.
pub open spec fn normalize_spec(s: Seq<char>) -> Seq<char>
    decreases s.len(),
{
    if s.len() == 0 {
        Seq::empty()
    } else if s[0] == '\r' {
        if s.len() > 1 && s[1] == '\n' {
            seq!['\n'] + normalize_spec(s.skip(2))
        } else {
            seq!['\n'] + normalize_spec(s.skip(1))
        }
    } else {
        seq![s[0]] + normalize_spec(s.skip(1))
    }
}

/// The text split at LF, as `str::lines` does for text free of CR: no line
/// for empty input, and a trailing LF does not open an empty final line.
pub open spec fn lines_spec(s: Seq<char>) -> Seq<Seq<char>>
    decreases s.len(),
{
    if s.len() == 0 {
        Seq::empty()
    } else {
        let j = find_char_spec(s, '\n');
        if 0 <= j && j < s.len() {
            seq![s.take(j)] + lines_spec(s.skip(j + 1))
        } else {
            seq![s]
        }
    }
}

/// A line that strongly looks like an injected external-sender warning,
/// judged on its trimmed, lowercased form.
pub open spec fn banner_line_spec(l: Seq<char>) -> bool {
    let t = lower_seq(trim_spec(l));
    (contains_seq(t, "external email"@) && (contains_seq(t, "caution"@) || contains_seq(
        t,
        "warning"@,
    ) || contains_seq(t, "external sender"@) || contains_seq(t, "originated"@))) || (
    starts_with_seq(t, "caution"@) && contains_seq(t, "external"@)) || (starts_with_seq(
        t,
        "warning"@,
    ) && contains_seq(t, "external"@)) || starts_with_seq(t, "this email originated"@)
        || starts_with_seq(t, "do not click"@) || starts_with_seq(t, "don't click"@)
        || contains_seq(t, "unless you recognise"@) || contains_seq(t, "unless you recognize"@)
        || contains_seq(t, "expected and known to be safe"@)
}

/// Whether the banner filter keeps a line: blank lines always stay, other
/// lines stay unless they look like a banner.
pub open spec fn kept_line_spec(l: Seq<char>) -> bool {
    trim_spec(l).len() == 0 || !banner_line_spec(l)
}

/// The lines that survive the banner filter, in order.
pub open spec fn kept_lines_spec(ls: Seq<Seq<char>>) -> Seq<Seq<char>>
    decreases ls.len(),
{
    if ls.len() == 0 {
        Seq::empty()
    } else {
        (if kept_line_spec(ls[0]) {
            seq![ls[0]]
        } else {
            Seq::empty()
        }) + kept_lines_spec(ls.drop_first())
    }
}

/// Lines joined with a single LF between them.
pub open spec fn join_lines_spec(ls: Seq<Seq<char>>) -> Seq<char>
    decreases ls.len(),
{
    if ls.len() == 0 {
        Seq::empty()
    } else if ls.len() == 1 {
        ls[0]
    } else {
        ls[0] + seq!['\n'] + join_lines_spec(ls.drop_first())
    }
}

/// The banner filter applied to a whole text: normalize the line breaks,
/// drop the banner-like lines, and join what is left.
pub open spec fn strip_banner_spec(s: Seq<char>) -> Seq<char> {
    join_lines_spec(kept_lines_spec(lines_spec(normalize_spec(s))))
}

/// Everything between `<` and `>` removed; a best-effort tag stripper used
/// only for scoring HTML candidates.
pub open spec fn tag_strip_spec(s: Seq<char>, in_tag: bool) -> Seq<char>
    decreases s.len(),
{
    if s.len() == 0 {
        Seq::empty()
    } else if s[0] == '<' {
        tag_strip_spec(s.skip(1), true)
    } else if s[0] == '>' {
        tag_strip_spec(s.skip(1), false)
    } else if in_tag {
        tag_strip_spec(s.skip(1), true)
    } else {
        seq![s[0]] + tag_strip_spec(s.skip(1), false)
    }
}

/// A plain-text body is classified "mostly banner" when it mentions
/// "external", is short overall, and loses almost everything to the banner
/// filter.
pub open spec fn mostly_banner_spec(s: Seq<char>) -> bool {
    contains_seq(lower_seq(s), "external"@) && 0 < alnum_count(s) && alnum_count(s) < 220
        && alnum_count(strip_banner_spec(s)) < 40
}

/// Line-break normalization over a character vector.
pub fn normalize_chars(s: &Vec<char>) -> (r: Vec<char>)
    ensures
        r@ == normalize_spec(s@),
{
    let n = s.len();
    let mut r: Vec<char> = Vec::new();
    let mut i: usize = 0;
    proof {
        assert(s@.skip(0) =~= s@);
    }
    while i < n
        invariant
            n == s@.len(),
            i <= n,
            normalize_spec(s@) == r@ + normalize_spec(s@.skip(i as int)),
        decreases n - i,
    {
        proof {
            assert(s@.skip(i as int)[0] == s@[i as int]);
            if i + 1 < n {
                assert(s@.skip(i as int)[1] == s@[i + 1]);
            }
            assert(s@.skip(i as int).skip(1) =~= s@.skip(i + 1));
            if i + 2 <= n {
                assert(s@.skip(i as int).skip(2) =~= s@.skip(i + 2));
            }
        }
        if s[i] == '\r' {
            r.push('\n');
            if i + 1 < n && s[i + 1] == '\n' {
                i += 2;
            } else {
                i += 1;
            }
        } else {
            r.push(s[i]);
            i += 1;
        }
    }
    proof {
        assert(s@.skip(n as int) =~= Seq::<char>::empty());
    }
    r
}

/// The text split at LF into its lines.
pub fn split_lines(s: &Vec<char>) -> (r: Vec<Vec<char>>)
    ensures
        r@.map_values(|l: Vec<char>| l@) == lines_spec(s@),
{
    let n = s.len();
    let mut r: Vec<Vec<char>> = Vec::new();
    let mut i: usize = 0;
    proof {
        assert(s@.skip(0) =~= s@);
        assert(r@.map_values(|l: Vec<char>| l@) =~= Seq::<Seq<char>>::empty());
    }
    while i < n
        invariant
            n == s@.len(),
            i <= n,
            lines_spec(s@) == r@.map_values(|l: Vec<char>| l@) + lines_spec(s@.skip(i as int)),
        decreases n - i,
    {
        let rest = sub_vec(s, i, n);
        proof {
            assert(rest@ =~= s@.skip(i as int));
        }
        let j = find_char(&rest, '\n');
        let ghost prev = r@.map_values(|l: Vec<char>| l@);
        proof {
            lemma_find_char_spec(rest@, '\n');
        }
        if j == rest.len() {
            r.push(rest);
            proof {
                assert(r@.map_values(|l: Vec<char>| l@) =~= prev + seq![s@.skip(i as int)]);
                assert(s@.skip(n as int) =~= Seq::<char>::empty());
            }
            i = n;
        } else {
            let line = sub_vec(&rest, 0, j);
            r.push(line);
            proof {
                assert(line@ =~= s@.skip(i as int).take(j as int));
                assert(r@.map_values(|l: Vec<char>| l@) =~= prev + seq![
                    s@.skip(i as int).take(j as int),
                ]);
                assert(s@.skip(i as int).skip(j + 1) =~= s@.skip(i + j + 1));
            }
            i = i + j + 1;
        }
    }
    proof {
        assert(s@.skip(n as int) =~= Seq::<char>::empty());
    }
    r
}

/// Whether the banner filter keeps this line.
pub fn line_kept(l: &Vec<char>) -> (r: bool)
    ensures
        r == kept_line_spec(l@),
{
    let trimmed = trim_chars(l);
    if trimmed.len() == 0 {
        return true;
    }
    let t = lower_vec(&trimmed);
    let ext_email = str_to_chars("external email");
    let caution = str_to_chars("caution");
    let warning = str_to_chars("warning");
    let ext_sender = str_to_chars("external sender");
    let originated = str_to_chars("originated");
    let external = str_to_chars("external");
    let this_orig = str_to_chars("this email originated");
    let do_not = str_to_chars("do not click");
    let dont = str_to_chars("don't click");
    let recognise = str_to_chars("unless you recognise");
    let recognize = str_to_chars("unless you recognize");
    let known_safe = str_to_chars("expected and known to be safe");
    let banner = (contains_chars(&t, &ext_email) && (contains_chars(&t, &caution)
        || contains_chars(&t, &warning) || contains_chars(&t, &ext_sender) || contains_chars(
        &t,
        &originated,
    ))) || (starts_with_chars(&t, &caution) && contains_chars(&t, &external)) || (
    starts_with_chars(&t, &warning) && contains_chars(&t, &external)) || starts_with_chars(
        &t,
        &this_orig,
    ) || starts_with_chars(&t, &do_not) || starts_with_chars(&t, &dont) || contains_chars(
        &t,
        &recognise,
    ) || contains_chars(&t, &recognize) || contains_chars(&t, &known_safe);
    !banner
}

/// Joining a further line appends a separator and the line.
proof fn lemma_join_push(ls: Seq<Seq<char>>, x: Seq<char>)
    requires
        ls.len() > 0,
    ensures
        join_lines_spec(ls.push(x)) == join_lines_spec(ls) + seq!['\n'] + x,
    decreases ls.len(),
{
    if ls.len() == 1 {
        assert(ls.push(x).drop_first() =~= seq![x]);
        assert(join_lines_spec(seq![x]) == x);
        assert(ls.push(x)[0] == ls[0]);
        assert(join_lines_spec(ls.push(x)) =~= ls[0] + seq!['\n'] + x);
    } else {
        lemma_join_push(ls.drop_first(), x);
        assert(ls.push(x).drop_first() =~= ls.drop_first().push(x));
        assert(join_lines_spec(ls.push(x)) =~= ls[0] + seq!['\n'] + join_lines_spec(
            ls.drop_first().push(x),
        ));
        assert(join_lines_spec(ls) + seq!['\n'] + x =~= ls[0] + seq!['\n'] + (join_lines_spec(
            ls.drop_first(),
        ) + seq!['\n'] + x));
    }
}

/// The surviving lines joined with LF.
fn join_kept(ls: &Vec<Vec<char>>) -> (r: Vec<char>)
    ensures
        r@ == join_lines_spec(ls@.map_values(|l: Vec<char>| l@)),
{
    let n = ls.len();
    let mut r: Vec<char> = Vec::new();
    let ghost view = ls@.map_values(|l: Vec<char>| l@);
    for i in 0..n
        invariant
            n == ls@.len(),
            view == ls@.map_values(|l: Vec<char>| l@),
            r@ == join_lines_spec(view.take(i as int)),
    {
        let ghost before = r@;
        if i > 0 {
            r.push('\n');
        }
        let line = &ls[i];
        let m = line.len();
        for k in 0..m
            invariant
                m == line@.len(),
                r@ == (if i > 0 {
                    before + seq!['\n']
                } else {
                    before
                }) + line@.take(k as int),
        {
            r.push(line[k]);
            proof {
                assert(line@.take(k + 1) =~= line@.take(k as int).push(line@[k as int]));
            }
        }
        proof {
            assert(line@.take(m as int) =~= line@);
            assert(view.take(i + 1) =~= view.take(i as int).push(view[i as int]));
            if i > 0 {
                lemma_join_push(view.take(i as int), view[i as int]);
            } else {
                assert(join_lines_spec(seq![view[0]]) == view[0]);
                assert(r@ =~= view[0]);
            }
        }
    }
    proof {
        assert(view.take(n as int) =~= view);
    }
    r
}

/// The banner filter over a character vector.
pub fn strip_banner_chars(s: &Vec<char>) -> (r: Vec<char>)
    ensures
        r@ == strip_banner_spec(s@),
{
    let normalized = normalize_chars(s);
    let lines = split_lines(&normalized);
    let n = lines.len();
    let mut kept: Vec<Vec<char>> = Vec::new();
    let ghost all = lines@.map_values(|l: Vec<char>| l@);
    proof {
        assert(all.skip(0) =~= all);
        assert(kept@.map_values(|l: Vec<char>| l@) =~= Seq::<Seq<char>>::empty());
    }
    for i in 0..n
        invariant
            n == lines@.len(),
            all == lines@.map_values(|l: Vec<char>| l@),
            kept_lines_spec(all) == kept@.map_values(|l: Vec<char>| l@) + kept_lines_spec(
                all.skip(i as int),
            ),
    {
        proof {
            assert(all.skip(i as int)[0] == all[i as int]);
            assert(all.skip(i as int).drop_first() =~= all.skip(i + 1));
        }
        let ghost prev = kept@.map_values(|l: Vec<char>| l@);
        let line = &lines[i];
        if line_kept(line) {
            let copy = sub_vec(line, 0, line.len());
            proof {
                assert(copy@ =~= all[i as int]);
            }
            kept.push(copy);
            proof {
                assert(kept@.map_values(|l: Vec<char>| l@) =~= prev + seq![all[i as int]]);
            }
        }
    }
    proof {
        assert(all.skip(n as int) =~= Seq::<Seq<char>>::empty());
        assert(kept@.map_values(|l: Vec<char>| l@) + Seq::<Seq<char>>::empty() =~= kept@.map_values(
            |l: Vec<char>| l@,
        ));
    }
    join_kept(&kept)
}

/// The rough tag stripper over a character vector.
pub fn tag_strip_chars(s: &Vec<char>) -> (r: Vec<char>)
    ensures
        r@ == tag_strip_spec(s@, false),
{
    let n = s.len();
    let mut r: Vec<char> = Vec::new();
    let mut in_tag = false;
    proof {
        assert(s@.skip(0) =~= s@);
    }
    for i in 0..n
        invariant
            n == s@.len(),
            tag_strip_spec(s@, false) == r@ + tag_strip_spec(s@.skip(i as int), in_tag),
    {
        proof {
            assert(s@.skip(i as int)[0] == s@[i as int]);
            assert(s@.skip(i as int).skip(1) =~= s@.skip(i + 1));
        }
        let c = s[i];
        if c == '<' {
            in_tag = true;
        } else if c == '>' {
            in_tag = false;
        } else if !in_tag {
            r.push(c);
        }
    }
    proof {
        assert(s@.skip(n as int) =~= Seq::<char>::empty());
    }
    r
}

/// The alphanumeric length a candidate keeps after banner filtering, with
/// tags stripped first for HTML candidates: the body-selection score.
pub fn alnum_len_after_strip(text: &str, strip_tags: bool) -> (r: usize)
    ensures
        strip_tags ==> r == alnum_count(strip_banner_spec(tag_strip_spec(text@, false))),
        !strip_tags ==> r == alnum_count(strip_banner_spec(text@)),
{
    let chars = str_to_chars(text);
    let base = if strip_tags {
        tag_strip_chars(&chars)
    } else {
        chars
    };
    let stripped = strip_banner_chars(&base);
    alnum_len(&stripped)
}

/// CRLF and lone CR collapsed to LF.
pub fn normalize_newlines(text: &str) -> (r: String)
    ensures
        r@ == normalize_spec(text@),
{
    let chars = str_to_chars(text);
    let normalized = normalize_chars(&chars);
    chars_to_string(&normalized)
}

/// Number of ASCII alphanumeric characters in the text.
pub fn core_alnum_len(text: &str) -> (r: usize)
    ensures
        r == alnum_count(text@),
{
    let chars = str_to_chars(text);
    alnum_len(&chars)
}

/// Drops only lines that strongly look like external-email warnings; blank
/// lines are kept so paragraph structure survives.
pub fn strip_external_banner_lines(text: &str) -> (r: String)
    ensures
        r@ == strip_banner_spec(text@),
{
    let chars = str_to_chars(text);
    let stripped = strip_banner_chars(&chars);
    chars_to_string(&stripped)
}

/// Whether the text is short, mentions "external", and loses almost all its
/// content to the banner filter.
pub fn is_mostly_external_banner(text: &str) -> (r: bool)
    ensures
        r == mostly_banner_spec(text@),
{
    let chars = str_to_chars(text);
    let lower = lower_vec(&chars);
    let external = str_to_chars("external");
    if !contains_chars(&lower, &external) {
        return false;
    }
    let core_total = alnum_len(&chars);
    let stripped = strip_banner_chars(&chars);
    let core_stripped = alnum_len(&stripped);
    core_total > 0 && core_total < 220 && core_stripped < 40
}

/// Removes everything between `<` and `>`; used only to score and to derive
/// a text rendering of an HTML body, never to store one.
pub fn html_to_text_rough(html: &str) -> (r: String)
    ensures
        r@ == tag_strip_spec(html@, false),
{
    let chars = str_to_chars(html);
    let stripped = tag_strip_chars(&chars);
    chars_to_string(&stripped)
}

} // verus!
