//! Record assembly: composing one `EmailRecord` per surviving message and
//! one `AttachmentRecord` per classified, successfully-extracted
//! attachment, with every field pinned to a function of the inputs.

use vstd::prelude::*;

use crate::attach::{
    attachment_parts_spec, collect_attachment_parts, filename_spec, is_inline_part, is_inline_spec,
    parse_filename_from_headers, sanitize_filename, sanitize_filename_spec,
};
use crate::body::{select_bodies_spec, select_email_bodies};
use crate::ident::{hex_of, sha256_bytes, sha256_of, stable_uuid, stable_uuid_spec};
use crate::mime::{header_all, header_all_spec, header_first, header_first_spec, MimePart};
use crate::text::{
    chars_to_string, dec_pad3_spec, dec_rep, find_char, find_char_spec,
    push_all, str_to_chars, sub_vec, trim_chars, trim_char_spec, trim_match_char,
    trim_start_char_spec, trim_spec, u64_to_dec_chars, u64_to_pad3_chars,
};

verus! {

/// One structured email, ready for serialization downstream.
pub struct EmailRecord {
    pub id: String,
    pub pst_file_id: String,
    pub project_id: Option<String>,
    pub case_id: Option<String>,
    pub source_path: String,
    pub message_id: Option<String>,
    pub in_reply_to: Option<String>,
    pub references: Option<String>,
    pub subject: Option<String>,
    pub from: Option<String>,
    pub to: Option<String>,
    pub cc: Option<String>,
    pub bcc: Option<String>,
    pub date: Option<String>,
    pub date_epoch: Option<i64>,
    pub received: Vec<String>,
    pub body_text: Option<String>,
    pub body_html: Option<String>,
    pub sender_email: Option<String>,
    pub sender_name: Option<String>,
}

/// One extracted attachment, ready for serialization downstream.
pub struct AttachmentRecord {
    pub id: String,
    pub email_message_id: String,
    pub pst_file_id: String,
    pub project_id: Option<String>,
    pub case_id: Option<String>,
    pub filename: String,
    pub content_type: Option<String>,
    pub file_size_bytes: usize,
    pub s3_bucket: String,
    pub s3_key: String,
    pub attachment_hash: String,
    pub is_inline: bool,
    pub content_id: Option<String>,
    pub source_path: String,
}

/// An optional string field carries exactly the given optional value.
pub open spec fn opt_match(o: Option<String>, s: Option<Seq<char>>) -> bool {
    (o is Some <==> s is Some) && (o is Some ==> o->0@ == s->0)
}

/// A non-empty string as present, an empty one as absent.
pub open spec fn opt_str(v: Seq<char>) -> Option<Seq<char>> {
    if v.len() > 0 {
        Some(v)
    } else {
        None
    }
}

/// The best-effort split of a From header: an `<...>` pair gives the email
/// inside the brackets and the display name before them; otherwise a value
/// with `@` is an email and anything else a display name.
pub open spec fn sender_spec(s: Seq<char>) -> (Option<Seq<char>>, Option<Seq<char>>) {
    let t = trim_spec(s);
    if t.len() == 0 {
        (None, None)
    } else {
        let a = find_char_spec(t, '<');
        if a < t.len() && a + 1 + find_char_spec(t.skip(a + 1), '>') < t.len() {
            let b = a + 1 + find_char_spec(t.skip(a + 1), '>');
            let email = trim_spec(t.subrange(a + 1, b));
            let name = trim_char_spec(trim_char_spec(trim_spec(t.take(a)), '"'), '\'');
            (opt_str(email), opt_str(name))
        } else if find_char_spec(t, '@') < t.len() {
            (Some(t), None)
        } else {
            (None, Some(t))
        }
    }
}

/// Splits a From header into a best-effort email and display name.
pub fn parse_sender(from_header: &str) -> (r: (Option<String>, Option<String>))
    ensures
        opt_match(r.0, sender_spec(from_header@).0),
        opt_match(r.1, sender_spec(from_header@).1),
{
    let t = trim_chars(&str_to_chars(from_header));
    if t.len() == 0 {
        return (None, None);
    }
    let a = find_char(&t, '<');
    if a < t.len() {
        let after = sub_vec(&t, a + 1, t.len());
        proof {
            assert(after@ =~= t@.skip(a + 1));
        }
        let f = find_char(&after, '>');
        if f < after.len() {
            let b = a + 1 + f;
            let email = trim_chars(&sub_vec(&t, a + 1, b));
            let name = trim_match_char(&trim_match_char(&trim_chars(&sub_vec(&t, 0, a)), '"'), '\'');
            proof {
                assert(t@.subrange(0, a as int) =~= t@.take(a as int));
            }
            let email_opt = if email.len() > 0 {
                Some(chars_to_string(&email))
            } else {
                None
            };
            let name_opt = if name.len() > 0 {
                Some(chars_to_string(&name))
            } else {
                None
            };
            return (email_opt, name_opt);
        }
    }
    if find_char(&t, '@') < t.len() {
        return (Some(chars_to_string(&t)), None);
    }
    (None, Some(chars_to_string(&t)))
}

/// The parse result of an RFC822 date string, named but not modelled:
/// every claim about it goes through `parse_date_epoch`.
pub uninterp spec fn date_epoch_of(s: Seq<char>) -> Option<i64>;

/// Relies on mailparse::dateparse: the parsed Unix timestamp is a pure
/// function of the date string; a string it cannot parse yields `None`.
#[verifier::external_body]
fn parse_date_epoch(s: &str) -> (r: Option<i64>)
    ensures
        r == date_epoch_of(s@),
{
    match mailparse::dateparse(s) {
        Ok(v) => Some(v),
        Err(_) => None,
    }
}

/// The trimmed Message-ID header, or empty when absent.
pub open spec fn message_id_or_empty(p: MimePart) -> Seq<char> {
    match header_first_spec(p.headers@, "Message-ID"@) {
        Some(v) => v,
        None => Seq::empty(),
    }
}

/// The identity seed of an email: batch id, source path, Message-ID and
/// intra-file index, in a fixed textual form.
pub open spec fn email_seed_spec(pst: Seq<char>, src: Seq<char>, mid: Seq<char>, idx: nat) -> Seq<
    char,
> {
    "pst:"@ + pst + "|src:"@ + src + "|mid:"@ + mid + "|idx:"@ + dec_rep(idx)
}

/// The deterministic identifier of an email.
pub open spec fn email_id_spec(pst: Seq<char>, src: Seq<char>, mid: Seq<char>, idx: nat) -> Seq<
    char,
> {
    stable_uuid_spec(email_seed_spec(pst, src, mid, idx))
}

/// The identity seed of an attachment: batch id, parent email id, content
/// hash, sanitized filename and part index, in a fixed textual form.
pub open spec fn attachment_seed_spec(
    pst: Seq<char>,
    email_id: Seq<char>,
    hash: Seq<char>,
    name: Seq<char>,
    idx: nat,
) -> Seq<char> {
    "pst:"@ + pst + "|email:"@ + email_id + "|hash:"@ + hash + "|name:"@ + name + "|idx:"@
        + dec_rep(idx)
}

/// The deterministic identifier of an attachment.
pub open spec fn attachment_id_spec(
    pst: Seq<char>,
    email_id: Seq<char>,
    hash: Seq<char>,
    name: Seq<char>,
    idx: nat,
) -> Seq<char> {
    stable_uuid_spec(attachment_seed_spec(pst, email_id, hash, name, idx))
}

/// The identifier law: the email identifier is a pure function of the
/// batch id, source path, Message-ID and intra-file index alone, so two
/// runs over identical input agree on it however the rest of the message
/// reads.
pub proof fn lemma_email_id_deterministic(
    pst1: Seq<char>,
    src1: Seq<char>,
    mid1: Seq<char>,
    idx1: nat,
    pst2: Seq<char>,
    src2: Seq<char>,
    mid2: Seq<char>,
    idx2: nat,
)
    requires
        pst1 == pst2,
        src1 == src2,
        mid1 == mid2,
        idx1 == idx2,
    ensures
        email_id_spec(pst1, src1, mid1, idx1) == email_id_spec(pst2, src2, mid2, idx2),
{
}

/// The identifier law for attachments: the identifier is a pure function
/// of the batch id, parent email id, content hash, sanitized filename and
/// part index alone.
pub proof fn lemma_attachment_id_deterministic(
    pst1: Seq<char>,
    email1: Seq<char>,
    hash1: Seq<char>,
    name1: Seq<char>,
    idx1: nat,
    pst2: Seq<char>,
    email2: Seq<char>,
    hash2: Seq<char>,
    name2: Seq<char>,
    idx2: nat,
)
    requires
        pst1 == pst2,
        email1 == email2,
        hash1 == hash2,
        name1 == name2,
        idx1 == idx2,
    ensures
        attachment_id_spec(pst1, email1, hash1, name1, idx1) == attachment_id_spec(
            pst2,
            email2,
            hash2,
            name2,
            idx2,
        ),
{
}

/// Two optional string fields carry the same value.
pub open spec fn opt_same(a: Option<String>, b: Option<String>) -> bool {
    (a is Some <==> b is Some) && (a is Some ==> a->0@ == b->0@)
}

/// The idempotence law: two email records assembled from byte-identical
/// input and batch parameters agree on the identifier and on every field,
/// so a rerun of the pipeline reproduces its records exactly.
pub proof fn lemma_email_assembly_idempotent(
    r1: EmailRecord,
    r2: EmailRecord,
    pst: Seq<char>,
    project: Seq<char>,
    case_id: Seq<char>,
    src: Seq<char>,
    idx: nat,
    mail: MimePart,
)
    requires
        email_record_matches(r1, pst, project, case_id, src, idx, mail),
        email_record_matches(r2, pst, project, case_id, src, idx, mail),
    ensures
        r1.id@ == r2.id@,
        r1.pst_file_id@ == r2.pst_file_id@,
        r1.source_path@ == r2.source_path@,
        opt_same(r1.project_id, r2.project_id),
        opt_same(r1.case_id, r2.case_id),
        opt_same(r1.message_id, r2.message_id),
        opt_same(r1.in_reply_to, r2.in_reply_to),
        opt_same(r1.references, r2.references),
        opt_same(r1.subject, r2.subject),
        opt_same(r1.from, r2.from),
        opt_same(r1.to, r2.to),
        opt_same(r1.cc, r2.cc),
        opt_same(r1.bcc, r2.bcc),
        opt_same(r1.date, r2.date),
        r1.date_epoch == r2.date_epoch,
        r1.received@.map_values(|v: String| v@) == r2.received@.map_values(|v: String| v@),
        opt_same(r1.body_text, r2.body_text),
        opt_same(r1.body_html, r2.body_html),
        opt_same(r1.sender_email, r2.sender_email),
        opt_same(r1.sender_name, r2.sender_name),
{
}

/// Every field of an assembled email record, as a function of the batch
/// parameters, the source path, the intra-file index and the parsed tree.
pub open spec fn email_record_matches(
    rec: EmailRecord,
    pst: Seq<char>,
    project: Seq<char>,
    case_id: Seq<char>,
    src: Seq<char>,
    idx: nat,
    mail: MimePart,
) -> bool {
    &&& rec.id@ == email_id_spec(pst, src, message_id_or_empty(mail), idx)
    &&& rec.pst_file_id@ == pst
    &&& opt_match(rec.project_id, opt_str(project))
    &&& opt_match(rec.case_id, opt_str(case_id))
    &&& rec.source_path@ == src
    &&& opt_match(rec.message_id, header_first_spec(mail.headers@, "Message-ID"@))
    &&& opt_match(rec.in_reply_to, header_first_spec(mail.headers@, "In-Reply-To"@))
    &&& opt_match(rec.references, header_first_spec(mail.headers@, "References"@))
    &&& opt_match(rec.subject, header_first_spec(mail.headers@, "Subject"@))
    &&& opt_match(rec.from, header_first_spec(mail.headers@, "From"@))
    &&& opt_match(rec.to, header_first_spec(mail.headers@, "To"@))
    &&& opt_match(rec.cc, header_first_spec(mail.headers@, "Cc"@))
    &&& opt_match(rec.bcc, header_first_spec(mail.headers@, "Bcc"@))
    &&& opt_match(rec.date, header_first_spec(mail.headers@, "Date"@))
    &&& rec.date_epoch == (match header_first_spec(mail.headers@, "Date"@) {
        Some(d) => date_epoch_of(d),
        None => None,
    })
    &&& rec.received@.map_values(|v: String| v@) == header_all_spec(mail.headers@, "Received"@)
    &&& opt_match(rec.body_text, select_bodies_spec(mail).0)
    &&& opt_match(rec.body_html, select_bodies_spec(mail).1)
    &&& opt_match(
        rec.sender_email,
        match header_first_spec(mail.headers@, "From"@) {
            Some(f) => sender_spec(f).0,
            None => None,
        },
    )
    &&& opt_match(
        rec.sender_name,
        match header_first_spec(mail.headers@, "From"@) {
            Some(f) => sender_spec(f).1,
            None => None,
        },
    )
}

/// Builds the identity seed of an email.
fn build_email_seed(pst: &str, src: &str, mid: &str, idx: u64) -> (r: String)
    ensures
        r@ == email_seed_spec(pst@, src@, mid@, idx as nat),
{
    let mut seed: Vec<char> = Vec::new();
    push_all(&mut seed, &str_to_chars("pst:"));
    push_all(&mut seed, &str_to_chars(pst));
    push_all(&mut seed, &str_to_chars("|src:"));
    push_all(&mut seed, &str_to_chars(src));
    push_all(&mut seed, &str_to_chars("|mid:"));
    push_all(&mut seed, &str_to_chars(mid));
    push_all(&mut seed, &str_to_chars("|idx:"));
    push_all(&mut seed, &u64_to_dec_chars(idx));
    chars_to_string(&seed)
}

/// Builds the identity seed of an attachment.
fn build_attachment_seed(pst: &str, email_id: &str, hash: &str, name: &str, idx: u64) -> (r:
    String)
    ensures
        r@ == attachment_seed_spec(pst@, email_id@, hash@, name@, idx as nat),
{
    let mut seed: Vec<char> = Vec::new();
    push_all(&mut seed, &str_to_chars("pst:"));
    push_all(&mut seed, &str_to_chars(pst));
    push_all(&mut seed, &str_to_chars("|email:"));
    push_all(&mut seed, &str_to_chars(email_id));
    push_all(&mut seed, &str_to_chars("|hash:"));
    push_all(&mut seed, &str_to_chars(hash));
    push_all(&mut seed, &str_to_chars("|name:"));
    push_all(&mut seed, &str_to_chars(name));
    push_all(&mut seed, &str_to_chars("|idx:"));
    push_all(&mut seed, &u64_to_dec_chars(idx));
    chars_to_string(&seed)
}

/// An empty-for-absent batch field as an optional value.
fn opt_field(value: &str) -> (r: Option<String>)
    ensures
        opt_match(r, opt_str(value@)),
{
    if value.is_empty() {
        None
    } else {
        let chars = str_to_chars(value);
        Some(chars_to_string(&chars))
    }
}

/// Assembles one email record from the batch parameters, the message's
/// source path and intra-file index, and its parsed tree.
pub fn assemble_email(
    pst_file_id: &str,
    project_id: &str,
    case_id: &str,
    source_path: &str,
    msg_idx: usize,
    mail: &MimePart,
) -> (r: EmailRecord)
    ensures
        email_record_matches(
            r,
            pst_file_id@,
            project_id@,
            case_id@,
            source_path@,
            msg_idx as nat,
            *mail,
        ),
{
    let message_id = header_first(mail, "Message-ID");
    let in_reply_to = header_first(mail, "In-Reply-To");
    let references = header_first(mail, "References");
    let subject = header_first(mail, "Subject");
    let from_header = header_first(mail, "From");
    let to_header = header_first(mail, "To");
    let cc_header = header_first(mail, "Cc");
    let bcc_header = header_first(mail, "Bcc");
    let date_header = header_first(mail, "Date");
    let date_epoch = match &date_header {
        Some(d) => parse_date_epoch(d.as_str()),
        None => None,
    };
    let (sender_email, sender_name) = match &from_header {
        Some(f) => parse_sender(f.as_str()),
        None => (None, None),
    };
    let mid_for_seed = match &message_id {
        Some(m) => chars_to_string(&str_to_chars(m.as_str())),
        None => String::new(),
    };
    let seed = build_email_seed(pst_file_id, source_path, mid_for_seed.as_str(), msg_idx as u64);
    let id = stable_uuid(seed.as_str());
    let (body_text, body_html) = select_email_bodies(mail);
    let src_copy = chars_to_string(&str_to_chars(source_path));
    let pst_copy = chars_to_string(&str_to_chars(pst_file_id));
    EmailRecord {
        id,
        pst_file_id: pst_copy,
        project_id: opt_field(project_id),
        case_id: opt_field(case_id),
        source_path: src_copy,
        message_id,
        in_reply_to,
        references,
        subject,
        from: from_header,
        to: to_header,
        cc: cc_header,
        bcc: bcc_header,
        date: date_header,
        date_epoch,
        received: header_all(mail, "Received"),
        body_text,
        body_html,
        sender_email,
        sender_name,
    }
}

/// A part's raw content is extractable when decoding succeeded and gave at
/// least one byte.
pub open spec fn extractable(p: MimePart) -> bool {
    p.body_raw is Some && p.body_raw->0@.len() > 0
}

/// The storage key of an attachment under the output prefix.
pub open spec fn attachment_key_spec(
    prefix: Seq<char>,
    email_id: Seq<char>,
    att_id: Seq<char>,
    safe_name: Seq<char>,
) -> Seq<char> {
    trim_start_char_spec(prefix, '/') + "attachments/"@ + email_id + "/"@ + att_id + "__"@
        + safe_name
}

/// The raw filename of a part: the resolved header filename, or a
/// position-derived default.
pub open spec fn raw_filename_spec(p: MimePart, idx: nat) -> Seq<char> {
    match filename_spec(p) {
        Some(f) => f,
        None => "attachment-"@ + dec_pad3_spec(idx) + ".bin"@,
    }
}

/// Every field of an assembled attachment record, as a function of the
/// batch parameters, the parent email id, the part and its index.
pub open spec fn attachment_record_matches(
    rec: AttachmentRecord,
    pst: Seq<char>,
    project: Seq<char>,
    case_id: Seq<char>,
    email_id: Seq<char>,
    src: Seq<char>,
    bucket: Seq<char>,
    prefix: Seq<char>,
    part: MimePart,
    idx: nat,
) -> bool {
    let content = part.body_raw->0@;
    let hash = hex_of(sha256_of(content));
    let fname = sanitize_filename_spec(raw_filename_spec(part, idx), "attachment.bin"@);
    let att_id = attachment_id_spec(pst, email_id, hash, fname, idx);
    let safe_name = sanitize_filename_spec(fname, "attachment.bin"@);
    &&& rec.id@ == att_id
    &&& rec.email_message_id@ == email_id
    &&& rec.pst_file_id@ == pst
    &&& opt_match(rec.project_id, opt_str(project))
    &&& opt_match(rec.case_id, opt_str(case_id))
    &&& rec.filename@ == fname
    &&& opt_match(rec.content_type, opt_str(part.mime_type@))
    &&& rec.file_size_bytes == content.len()
    &&& rec.s3_bucket@ == bucket
    &&& rec.s3_key@ == attachment_key_spec(prefix, email_id, att_id, safe_name)
    &&& rec.attachment_hash@ == hash
    &&& rec.is_inline == is_inline_spec(part)
    &&& opt_match(rec.content_id, header_first_spec(part.headers@, "Content-ID"@))
    &&& rec.source_path@ == src
}

/// The idempotence law for attachments: two attachment records assembled
/// from byte-identical input and batch parameters agree on the identifier
/// and on every field.
pub proof fn lemma_attachment_assembly_idempotent(
    r1: AttachmentRecord,
    r2: AttachmentRecord,
    pst: Seq<char>,
    project: Seq<char>,
    case_id: Seq<char>,
    email_id: Seq<char>,
    src: Seq<char>,
    bucket: Seq<char>,
    prefix: Seq<char>,
    part: MimePart,
    idx: nat,
)
    requires
        attachment_record_matches(r1, pst, project, case_id, email_id, src, bucket, prefix, part, idx),
        attachment_record_matches(r2, pst, project, case_id, email_id, src, bucket, prefix, part, idx),
    ensures
        r1.id@ == r2.id@,
        r1.email_message_id@ == r2.email_message_id@,
        r1.filename@ == r2.filename@,
        r1.file_size_bytes == r2.file_size_bytes,
        r1.s3_key@ == r2.s3_key@,
        r1.attachment_hash@ == r2.attachment_hash@,
        r1.is_inline == r2.is_inline,
        opt_same(r1.content_type, r2.content_type),
        opt_same(r1.content_id, r2.content_id),
{
}

/// Removes every leading `/` from the output prefix.
fn trim_prefix(prefix: &str) -> (r: Vec<char>)
    ensures
        r@ == trim_start_char_spec(prefix@, '/'),
{
    let chars = str_to_chars(prefix);
    let n = chars.len();
    let mut a: usize = 0;
    while a < n && chars[a] == '/'
        invariant
            n == chars@.len(),
            a <= n,
            forall|k: int| 0 <= k < a ==> chars@[k] == '/',
        decreases n - a,
    {
        a += 1;
    }
    proof {
        crate::text::lemma_trim_start_char_agrees(chars@, '/', a as int);
    }
    let r = sub_vec(&chars, a, n);
    proof {
        assert(r@ =~= chars@.skip(a as int));
    }
    r
}

/// Assembles one attachment record for a classified part, or nothing when
/// the part's raw content cannot be extracted or is empty.
pub fn assemble_attachment(
    pst_file_id: &str,
    project_id: &str,
    case_id: &str,
    email_id: &str,
    source_path: &str,
    output_bucket: &str,
    output_prefix: &str,
    part: &MimePart,
    part_idx: usize,
) -> (r: Option<AttachmentRecord>)
    ensures
        r is Some <==> extractable(*part),
        r matches Some(rec) ==> attachment_record_matches(
            rec,
            pst_file_id@,
            project_id@,
            case_id@,
            email_id@,
            source_path@,
            output_bucket@,
            output_prefix@,
            *part,
            part_idx as nat,
        ),
{
    let content_len: usize;
    let attachment_hash: String;
    match &part.body_raw {
        Some(content) => {
            if content.len() == 0 {
                return None;
            }
            content_len = content.len();
            attachment_hash = sha256_bytes(content.as_slice());
        },
        None => {
            return None;
        },
    }
    let filename_raw = match parse_filename_from_headers(part) {
        Some(f) => f,
        None => {
            let mut name: Vec<char> = Vec::new();
            push_all(&mut name, &str_to_chars("attachment-"));
            push_all(&mut name, &u64_to_pad3_chars(part_idx as u64));
            push_all(&mut name, &str_to_chars(".bin"));
            chars_to_string(&name)
        },
    };
    let filename = sanitize_filename(filename_raw.as_str(), "attachment.bin");
    let is_inline = is_inline_part(part);
    let content_id = header_first(part, "Content-ID");
    let content_type = if part.mime_type.as_str().is_empty() {
        None
    } else {
        Some(chars_to_string(&str_to_chars(part.mime_type.as_str())))
    };
    let att_seed = build_attachment_seed(
        pst_file_id,
        email_id,
        attachment_hash.as_str(),
        filename.as_str(),
        part_idx as u64,
    );
    let attachment_id = stable_uuid(att_seed.as_str());
    let safe_name = sanitize_filename(filename.as_str(), "attachment.bin");
    let mut key: Vec<char> = Vec::new();
    push_all(&mut key, &trim_prefix(output_prefix));
    push_all(&mut key, &str_to_chars("attachments/"));
    push_all(&mut key, &str_to_chars(email_id));
    push_all(&mut key, &str_to_chars("/"));
    push_all(&mut key, &str_to_chars(attachment_id.as_str()));
    push_all(&mut key, &str_to_chars("__"));
    push_all(&mut key, &str_to_chars(safe_name.as_str()));
    let s3_key = chars_to_string(&key);
    Some(
        AttachmentRecord {
            id: attachment_id,
            email_message_id: chars_to_string(&str_to_chars(email_id)),
            pst_file_id: chars_to_string(&str_to_chars(pst_file_id)),
            project_id: opt_field(project_id),
            case_id: opt_field(case_id),
            filename,
            content_type,
            file_size_bytes: content_len,
            s3_bucket: chars_to_string(&str_to_chars(output_bucket)),
            s3_key,
            attachment_hash,
            is_inline,
            content_id,
            source_path: chars_to_string(&str_to_chars(source_path)),
        },
    )
}

/// The classified parts that yield a record, each with its part index.
pub open spec fn retained_from(parts: Seq<MimePart>, k: int) -> Seq<(MimePart, int)>
    decreases parts.len() - k,
{
    if 0 <= k && k < parts.len() {
        (if extractable(parts[k]) {
            seq![(parts[k], k)]
        } else {
            Seq::empty()
        }) + retained_from(parts, k + 1)
    } else {
        Seq::empty()
    }
}

/// Assembles the attachment records of one message: its classified parts
/// in document order, skipping parts whose content cannot be extracted,
/// each record linked to the parent email id.
pub fn assemble_attachments(
    pst_file_id: &str,
    project_id: &str,
    case_id: &str,
    email_id: &str,
    source_path: &str,
    output_bucket: &str,
    output_prefix: &str,
    mail: &MimePart,
) -> (r: Vec<AttachmentRecord>)
    ensures
        ({
            let kept = retained_from(attachment_parts_spec(*mail), 0);
            &&& r@.len() == kept.len()
            &&& forall|j: int|
                0 <= j < kept.len() ==> attachment_record_matches(
                    #[trigger] r@[j],
                    pst_file_id@,
                    project_id@,
                    case_id@,
                    email_id@,
                    source_path@,
                    output_bucket@,
                    output_prefix@,
                    kept[j].0,
                    kept[j].1 as nat,
                )
        }),
{
    let mut parts: Vec<&MimePart> = Vec::new();
    collect_attachment_parts(mail, &mut parts);
    let ghost pview = parts@.map_values(|q: &MimePart| *q);
    proof {
        assert(pview =~= attachment_parts_spec(*mail));
    }
    let count = parts.len();
    let mut r: Vec<AttachmentRecord> = Vec::new();
    let ghost mut done: Seq<(MimePart, int)> = Seq::empty();
    proof {
        assert(done + retained_from(pview, 0) =~= retained_from(pview, 0));
    }
    for k in 0..count
        invariant
            count == parts@.len(),
            pview == parts@.map_values(|q: &MimePart| *q),
            done + retained_from(pview, k as int) == retained_from(pview, 0),
            r@.len() == done.len(),
            forall|j: int|
                0 <= j < done.len() ==> attachment_record_matches(
                    #[trigger] r@[j],
                    pst_file_id@,
                    project_id@,
                    case_id@,
                    email_id@,
                    source_path@,
                    output_bucket@,
                    output_prefix@,
                    done[j].0,
                    done[j].1 as nat,
                ),
    {
        let part = parts[k];
        match assemble_attachment(
            pst_file_id,
            project_id,
            case_id,
            email_id,
            source_path,
            output_bucket,
            output_prefix,
            part,
            k,
        ) {
            Some(rec) => {
                r.push(rec);
                proof {
                    done = done + seq![(pview[k as int], k as int)];
                }
            },
            None => {},
        }
    }
    proof {
        assert(retained_from(pview, count as int) =~= Seq::<(MimePart, int)>::empty());
        assert(done + Seq::<(MimePart, int)>::empty() =~= done);
    }
    r
}

/// Assembles every record of one message: the email record and its
/// attachment records, each attachment linked to the email's identifier.
pub fn assemble_message_records(
    pst_file_id: &str,
    project_id: &str,
    case_id: &str,
    source_path: &str,
    msg_idx: usize,
    output_bucket: &str,
    output_prefix: &str,
    mail: &MimePart,
) -> (r: (EmailRecord, Vec<AttachmentRecord>))
    ensures
        email_record_matches(
            r.0,
            pst_file_id@,
            project_id@,
            case_id@,
            source_path@,
            msg_idx as nat,
            *mail,
        ),
        ({
            let kept = retained_from(attachment_parts_spec(*mail), 0);
            &&& r.1@.len() == kept.len()
            &&& forall|j: int|
                0 <= j < kept.len() ==> attachment_record_matches(
                    #[trigger] r.1@[j],
                    pst_file_id@,
                    project_id@,
                    case_id@,
                    r.0.id@,
                    source_path@,
                    output_bucket@,
                    output_prefix@,
                    kept[j].0,
                    kept[j].1 as nat,
                )
        }),
{
    let email = assemble_email(pst_file_id, project_id, case_id, source_path, msg_idx, mail);
    let attachments = assemble_attachments(
        pst_file_id,
        project_id,
        case_id,
        email.id.as_str(),
        source_path,
        output_bucket,
        output_prefix,
        mail,
    );
    (email, attachments)
}

} // verus!
