//! The tabular rendering contract: RFC 4180-style field escaping and the
//! fixed, versioned column order for email and attachment rows that the
//! downstream bulk loader consumes.

use vstd::prelude::*;

use crate::record::{AttachmentRecord, EmailRecord};
use crate::text::{chars_to_string, dec_i64_spec, i64_to_string, push_all, str_to_chars};

verus! {

/// A field must be quoted when it holds a comma, double quote, CR or LF.
pub open spec fn needs_quoting(s: Seq<char>) -> bool {
    exists|i: int|
        0 <= i < s.len() && (#[trigger] s[i] == ',' || s[i] == '"' || s[i] == '\n' || s[i] == '\r')
}

/// Every double quote doubled.
pub open spec fn double_quotes(s: Seq<char>) -> Seq<char>
    decreases s.len(),
{
    if s.len() == 0 {
        Seq::empty()
    } else {
        (if s[0] == '"' {
            seq!['"', '"']
        } else {
            seq![s[0]]
        }) + double_quotes(s.drop_first())
    }
}

/// The escaped form of one field: unchanged when harmless, else wrapped in
/// double quotes with every internal double quote doubled.
pub open spec fn csv_escape_spec(s: Seq<char>) -> Seq<char> {
    if needs_quoting(s) {
        seq!['"'] + double_quotes(s) + seq!['"']
    } else {
        s
    }
}

/// The fields of a row joined with commas, each escaped.
pub open spec fn csv_row_spec(fs: Seq<Seq<char>>) -> Seq<char>
    decreases fs.len(),
{
    if fs.len() == 0 {
        Seq::empty()
    } else if fs.len() == 1 {
        csv_escape_spec(fs[0])
    } else {
        csv_escape_spec(fs[0]) + seq![','] + csv_row_spec(fs.drop_first())
    }
}

/// An optional field's rendering: its value, or the empty string.
pub open spec fn opt_field_spec(o: Option<String>) -> Seq<char> {
    match o {
        Some(v) => v@,
        None => Seq::empty(),
    }
}

/// The email columns, in the fixed order the downstream loader consumes;
/// reordering is a version bump.
pub open spec fn email_csv_fields(rec: EmailRecord) -> Seq<Seq<char>> {
    seq![
        rec.id@,
        rec.pst_file_id@,
        opt_field_spec(rec.project_id),
        opt_field_spec(rec.case_id),
        opt_field_spec(rec.message_id),
        opt_field_spec(rec.in_reply_to),
        opt_field_spec(rec.references),
        opt_field_spec(rec.subject),
        opt_field_spec(rec.from),
        opt_field_spec(rec.to),
        opt_field_spec(rec.cc),
        opt_field_spec(rec.bcc),
        opt_field_spec(rec.date),
        match rec.date_epoch {
            Some(v) => dec_i64_spec(v as int),
            None => Seq::empty(),
        },
        opt_field_spec(rec.sender_email),
        opt_field_spec(rec.sender_name),
        opt_field_spec(rec.body_text),
        opt_field_spec(rec.body_html),
        rec.source_path@,
    ]
}

/// The attachment columns, in the fixed order the downstream loader
/// consumes.
pub open spec fn attachment_csv_fields(rec: AttachmentRecord) -> Seq<Seq<char>> {
    seq![
        rec.id@,
        rec.email_message_id@,
        rec.pst_file_id@,
        opt_field_spec(rec.project_id),
        opt_field_spec(rec.case_id),
        rec.filename@,
        opt_field_spec(rec.content_type),
        crate::text::dec_rep(rec.file_size_bytes as nat),
        rec.s3_bucket@,
        rec.s3_key@,
        rec.attachment_hash@,
        (if rec.is_inline {
            "true"@
        } else {
            "false"@
        }),
        opt_field_spec(rec.content_id),
        rec.source_path@,
    ]
}

/// Escapes one field for the tabular rendering: quoted, with internal
/// quotes doubled, exactly when it holds a comma, quote, CR or LF.
pub fn csv_escape(value: &str) -> (r: String)
    ensures
        r@ == csv_escape_spec(value@),
{
    let chars = str_to_chars(value);
    let n = chars.len();
    let mut quoted = false;
    for i in 0..n
        invariant
            n == chars@.len(),
            quoted == exists|k: int|
                0 <= k < i && (#[trigger] chars@[k] == ',' || chars@[k] == '"' || chars@[k] == '\n'
                    || chars@[k] == '\r'),
    {
        let c = chars[i];
        if c == ',' || c == '"' || c == '\n' || c == '\r' {
            quoted = true;
        }
    }
    if !quoted {
        return chars_to_string(&chars);
    }
    let mut out: Vec<char> = Vec::new();
    out.push('"');
    proof {
        assert(chars@.skip(0) =~= chars@);
        assert(out@ =~= seq!['"'] + double_quotes(chars@.skip(0)).take(0));
    }
    for i in 0..n
        invariant
            n == chars@.len(),
            out@ == seq!['"'] + double_quotes(chars@.take(i as int)),
    {
        let ghost prev = out@;
        let c = chars[i];
        if c == '"' {
            out.push('"');
            out.push('"');
        } else {
            out.push(c);
        }
        proof {
            lemma_double_quotes_push(chars@.take(i as int), chars@[i as int]);
            assert(chars@.take(i + 1) =~= chars@.take(i as int).push(chars@[i as int]));
        }
    }
    out.push('"');
    proof {
        assert(chars@.take(n as int) =~= chars@);
        assert(out@ =~= seq!['"'] + double_quotes(chars@) + seq!['"']);
    }
    chars_to_string(&out)
}

/// Doubling distributes over appending one character.
proof fn lemma_double_quotes_push(s: Seq<char>, c: char)
    ensures
        double_quotes(s.push(c)) == double_quotes(s) + (if c == '"' {
            seq!['"', '"']
        } else {
            seq![c]
        }),
    decreases s.len(),
{
    let tail: Seq<char> = if c == '"' {
        seq!['"', '"']
    } else {
        seq![c]
    };
    if s.len() == 0 {
        assert(s.push(c)[0] == c);
        assert(s.push(c).drop_first() =~= Seq::<char>::empty());
        assert(double_quotes(s.push(c).drop_first()) =~= Seq::<char>::empty());
        assert(double_quotes(s.push(c)) =~= tail + double_quotes(s.push(c).drop_first()));
        assert(double_quotes(s.push(c)) =~= tail);
        assert(double_quotes(s) + tail =~= tail);
    } else {
        lemma_double_quotes_push(s.drop_first(), c);
        assert(s.push(c)[0] == s[0]);
        assert(s.push(c).drop_first() =~= s.drop_first().push(c));
        assert(double_quotes(s) + tail =~= (if s[0] == '"' {
            seq!['"', '"']
        } else {
            seq![s[0]]
        }) + (double_quotes(s.drop_first()) + tail));
    }
}

/// Renders one row: each field escaped, fields joined with commas.
fn render_row(fields: &Vec<String>) -> (r: String)
    ensures
        r@ == csv_row_spec(fields@.map_values(|f: String| f@)),
{
    let n = fields.len();
    let ghost fv = fields@.map_values(|f: String| f@);
    let mut out: Vec<char> = Vec::new();
    if n == 0 {
        return chars_to_string(&out);
    }
    proof {
        assert(fv.skip(0) =~= fv);
    }
    for i in 0..n
        invariant
            n == fields@.len(),
            n >= 1,
            fv == fields@.map_values(|f: String| f@),
            csv_row_spec(fv) == out@ + csv_row_spec(fv.skip(i as int)),
    {
        proof {
            assert(fv.skip(i as int)[0] == fv[i as int]);
            assert(fv.skip(i as int).drop_first() =~= fv.skip(i + 1));
        }
        let escaped = csv_escape(fields[i].as_str());
        push_all(&mut out, &str_to_chars(escaped.as_str()));
        if i + 1 < n {
            out.push(',');
        }
    }
    chars_to_string(&out)
}

/// The emitted `true`/`false` of a flag.
fn bool_field(b: bool) -> (r: String)
    ensures
        b ==> r@ == "true"@,
        !b ==> r@ == "false"@,
{
    if b {
        let chars = str_to_chars("true");
        chars_to_string(&chars)
    } else {
        let chars = str_to_chars("false");
        chars_to_string(&chars)
    }
}

/// A copy of an optional field's rendering.
fn opt_out(o: &Option<String>) -> (r: String)
    ensures
        r@ == opt_field_spec(*o),
{
    match o {
        Some(v) => chars_to_string(&str_to_chars(v.as_str())),
        None => String::new(),
    }
}

fn str_copy(s: &str) -> (r: String)
    ensures
        r@ == s@,
{
    chars_to_string(&str_to_chars(s))
}

/// Renders one email row in the fixed column order.
pub fn email_csv_row(rec: &EmailRecord) -> (r: String)
    ensures
        r@ == csv_row_spec(email_csv_fields(*rec)),
{
    let mut fields: Vec<String> = Vec::new();
    fields.push(str_copy(rec.id.as_str()));
    fields.push(str_copy(rec.pst_file_id.as_str()));
    fields.push(opt_out(&rec.project_id));
    fields.push(opt_out(&rec.case_id));
    fields.push(opt_out(&rec.message_id));
    fields.push(opt_out(&rec.in_reply_to));
    fields.push(opt_out(&rec.references));
    fields.push(opt_out(&rec.subject));
    fields.push(opt_out(&rec.from));
    fields.push(opt_out(&rec.to));
    fields.push(opt_out(&rec.cc));
    fields.push(opt_out(&rec.bcc));
    fields.push(opt_out(&rec.date));
    let epoch_field = match rec.date_epoch {
        Some(v) => i64_to_string(v),
        None => String::new(),
    };
    fields.push(epoch_field);
    fields.push(opt_out(&rec.sender_email));
    fields.push(opt_out(&rec.sender_name));
    fields.push(opt_out(&rec.body_text));
    fields.push(opt_out(&rec.body_html));
    fields.push(str_copy(rec.source_path.as_str()));
    proof {
        assert(fields@.map_values(|f: String| f@) =~= email_csv_fields(*rec));
    }
    render_row(&fields)
}

/// Renders one attachment row in the fixed column order.
pub fn attachment_csv_row(rec: &AttachmentRecord) -> (r: String)
    ensures
        r@ == csv_row_spec(attachment_csv_fields(*rec)),
{
    let mut fields: Vec<String> = Vec::new();
    fields.push(str_copy(rec.id.as_str()));
    fields.push(str_copy(rec.email_message_id.as_str()));
    fields.push(str_copy(rec.pst_file_id.as_str()));
    fields.push(opt_out(&rec.project_id));
    fields.push(opt_out(&rec.case_id));
    fields.push(str_copy(rec.filename.as_str()));
    fields.push(opt_out(&rec.content_type));
    fields.push(crate::text::u64_to_string(rec.file_size_bytes as u64));
    fields.push(str_copy(rec.s3_bucket.as_str()));
    fields.push(str_copy(rec.s3_key.as_str()));
    fields.push(str_copy(rec.attachment_hash.as_str()));
    fields.push(bool_field(rec.is_inline));
    fields.push(opt_out(&rec.content_id));
    fields.push(str_copy(rec.source_path.as_str()));
    proof {
        assert(fields@.map_values(|f: String| f@) =~= attachment_csv_fields(*rec));
    }
    render_row(&fields)
}

/// The fixed email header line.
pub fn email_csv_header() -> (r: String)
    ensures
        r@
            == "id,pst_file_id,project_id,case_id,message_id,in_reply_to,references_header,subject,from_header,to_header,cc_header,bcc_header,date_header,date_epoch,sender_email,sender_name,body_text,body_html,source_path"@,
{
    str_copy(
        "id,pst_file_id,project_id,case_id,message_id,in_reply_to,references_header,subject,from_header,to_header,cc_header,bcc_header,date_header,date_epoch,sender_email,sender_name,body_text,body_html,source_path",
    )
}

/// The fixed attachment header line.
pub fn attachment_csv_header() -> (r: String)
    ensures
        r@
            == "id,email_message_id,pst_file_id,project_id,case_id,filename,content_type,file_size_bytes,s3_bucket,s3_key,attachment_hash,is_inline,content_id,source_path"@,
{
    str_copy(
        "id,email_message_id,pst_file_id,project_id,case_id,filename,content_type,file_size_bytes,s3_bucket,s3_key,attachment_hash,is_inline,content_id,source_path",
    )
}

} // verus!
