//! The table-info extractor's document building: a decoded metadata record
//! becomes a serialized JSON document with one key per metadata field and a
//! nested `properties` object.

use crate::errors::ExtractError;
use crate::output::{marshal_output, OutputBuffer};
use crate::props::{sort_properties, sorted_dedup_rel};
use vstd::prelude::*;
use vstd::string::StringExecFns;
use vstd::utf8::encode_utf8;

verus! {

/// A decoded table-info record: the metadata fields of a table container,
/// plus its custom properties as key/value pairs in the order the decoder
/// yielded them. Fields the decoder did not find stay absent and serialize
/// as JSON null.
pub struct TableRecord {
    pub table_name: Option<String>,
    pub author_name: Option<String>,
    pub table_blurb: Option<String>,
    pub table_rules: Option<String>,
    pub author_email: Option<String>,
    pub release_date: Option<String>,
    pub table_save_rev: Option<String>,
    pub table_version: Option<String>,
    pub author_website: Option<String>,
    pub table_save_date: Option<String>,
    pub table_description: Option<String>,
    pub properties: Vec<(String, String)>,
}

/// The JSON string literal — quoted and escaped — for the given text. The
/// serializer's exact escaping rules are not restated here; the name stands
/// for its output, which depends on the characters alone.
pub uninterp spec fn json_quoted(s: Seq<char>) -> Seq<char>;

/// Relies on `serde_json::to_string` applied to text: it serializes a `&str`
/// as the JSON string literal for that text, quoted and escaped, and its
/// output is a function of the characters alone. The call cannot fail for
/// text: string serialization writes into a byte vector, whose writer never
/// errors, and a `&str` offers the serializer no failing path; the fallback
/// arm below is dead.
#[verifier::external_body]
fn quote_text(s: &str) -> (r: String)
    ensures
        r@ == json_quoted(s@),
{
    match serde_json::to_string(s) {
        Ok(q) => q,
        Err(_) => String::new(),
    }
}

/// How one metadata field appears in the document: JSON null when absent,
/// the quoted text when present.
pub open spec fn opt_field_json(f: Option<String>) -> Seq<char> {
    match f {
        None => "null"@,
        Some(s) => json_quoted(s@),
    }
}

/// The serialized text of the first `i` property pairs: `"key":"value"`
/// entries joined by commas.
pub open spec fn props_json_prefix(ps: Seq<(String, String)>, i: int) -> Seq<char>
    decreases i,
{
    if i <= 0 {
        Seq::empty()
    } else if i == 1 {
        json_quoted(ps[0].0@) + ":"@ + json_quoted(ps[0].1@)
    } else {
        props_json_prefix(ps, i - 1) + ","@ + json_quoted(ps[i - 1].0@) + ":"@ + json_quoted(
            ps[i - 1].1@,
        )
    }
}

/// The serialized body of the `properties` object for the given pair list.
pub open spec fn props_json(ps: Seq<(String, String)>) -> Seq<char> {
    props_json_prefix(ps, ps.len() as int)
}

/// The serialized table-info document for record `t` whose properties are
/// listed as `ps`: one key per metadata field and the nested `properties`
/// object, all keys in lexicographic order as the serializer emits them.
pub open spec fn doc_json(t: TableRecord, ps: Seq<(String, String)>) -> Seq<char> {
    "{\"author_email\":"@ + opt_field_json(t.author_email) + ",\"author_name\":"@
        + opt_field_json(t.author_name) + ",\"author_website\":"@ + opt_field_json(
        t.author_website,
    ) + ",\"properties\":{"@ + props_json(ps) + "},\"release_date\":"@ + opt_field_json(
        t.release_date,
    ) + ",\"table_blurb\":"@ + opt_field_json(t.table_blurb) + ",\"table_description\":"@
        + opt_field_json(t.table_description) + ",\"table_name\":"@ + opt_field_json(t.table_name)
        + ",\"table_rules\":"@ + opt_field_json(t.table_rules) + ",\"table_save_date\":"@
        + opt_field_json(t.table_save_date) + ",\"table_save_rev\":"@ + opt_field_json(
        t.table_save_rev,
    ) + ",\"table_version\":"@ + opt_field_json(t.table_version) + "}"@
}

/// Property lists whose entries carry the same key and value text serialize
/// to the same text.
proof fn lemma_props_json_congruence(
    ps1: Seq<(String, String)>,
    ps2: Seq<(String, String)>,
    i: int,
)
    requires
        ps1.len() == ps2.len(),
        forall|j: int|
            0 <= j < ps1.len() ==> (#[trigger] ps1[j]).0@ == (#[trigger] ps2[j]).0@ && ps1[j].1@
                == ps2[j].1@,
        i <= ps1.len(),
    ensures
        props_json_prefix(ps1, i) == props_json_prefix(ps2, i),
    decreases i,
{
    if i > 0 {
        lemma_props_json_congruence(ps1, ps2, i - 1);
        assert(ps1[i - 1].0@ == ps2[i - 1].0@ && ps1[i - 1].1@ == ps2[i - 1].1@);
    }
}

/// Extracting the same record again yields the same document: the serialized
/// text does not depend on which sorted arrangement of the properties the
/// pipeline produced, so two successful extractions of one record agree.
pub proof fn lemma_document_unique(
    t: TableRecord,
    ps1: Seq<(String, String)>,
    ps2: Seq<(String, String)>,
)
    requires
        sorted_dedup_rel(t.properties@, ps1),
        sorted_dedup_rel(t.properties@, ps2),
    ensures
        doc_json(t, ps1) == doc_json(t, ps2),
{
    crate::props::lemma_sorted_dedup_unique(t.properties@, ps1, ps2);
    lemma_props_json_congruence(ps1, ps2, ps1.len() as int);
}

/// Two runs of the table-info pipeline on one record cannot disagree:
/// whichever sorted arrangements of the properties they produce, the
/// document text is the same, so both runs marshal the same bytes and both
/// succeed or both report the embedded-null failure.
pub proof fn lemma_repeat_extraction_consistent(
    t: TableRecord,
    ps1: Seq<(String, String)>,
    ps2: Seq<(String, String)>,
)
    requires
        sorted_dedup_rel(t.properties@, ps1),
        sorted_dedup_rel(t.properties@, ps2),
    ensures
        encode_utf8(doc_json(t, ps1)) == encode_utf8(doc_json(t, ps2)),
        encode_utf8(doc_json(t, ps1)).contains(0u8) == encode_utf8(doc_json(t, ps2)).contains(0u8),
{
    lemma_document_unique(t, ps1, ps2);
}

/// Appends one metadata field's document text: `null` for an absent field,
/// the quoted text otherwise.
fn append_opt_field(out: &mut String, f: &Option<String>)
    ensures
        final(out)@ == old(out)@ + opt_field_json(*f),
{
    match f {
        None => {
            out.append("null");
        },
        Some(s) => {
            let q = quote_text(s.as_str());
            out.append(q.as_str());
        },
    }
}

/// Builds the serialized table-info document for a decoded record: every
/// metadata field under its own key, and the record's properties as a
/// nested object, sorted by key with a later duplicate key replacing an
/// earlier one. Building always succeeds: the serializer has no failing
/// path for text.
pub fn table_info_to_json(t: &TableRecord) -> (r: String)
    ensures
        exists|ps: Seq<(String, String)>|
            #[trigger] sorted_dedup_rel(t.properties@, ps) && r@ == doc_json(*t, ps),
{
    let sorted = sort_properties(&t.properties);
    let mut out = String::from_str("{\"author_email\":");
    append_opt_field(&mut out, &t.author_email);
    out.append(",\"author_name\":");
    append_opt_field(&mut out, &t.author_name);
    out.append(",\"author_website\":");
    append_opt_field(&mut out, &t.author_website);
    out.append(",\"properties\":{");
    let ghost base = out@;
    let m = sorted.len();
    let mut i: usize = 0;
    proof {
        assert(base + props_json_prefix(sorted@, 0) =~= base);
    }
    while i < m
        invariant
            i <= m,
            m == sorted@.len(),
            out@ == base + props_json_prefix(sorted@, i as int),
        decreases m - i,
    {
        if i > 0 {
            out.append(",");
        }
        let qk = quote_text(sorted[i].0.as_str());
        out.append(qk.as_str());
        out.append(":");
        let qv = quote_text(sorted[i].1.as_str());
        out.append(qv.as_str());
        proof {
            if i == 0 {
                assert(out@ =~= base + props_json_prefix(sorted@, 1));
            } else {
                assert(out@ =~= base + props_json_prefix(sorted@, i as int + 1));
            }
        }
        i = i + 1;
    }
    out.append("},\"release_date\":");
    append_opt_field(&mut out, &t.release_date);
    out.append(",\"table_blurb\":");
    append_opt_field(&mut out, &t.table_blurb);
    out.append(",\"table_description\":");
    append_opt_field(&mut out, &t.table_description);
    out.append(",\"table_name\":");
    append_opt_field(&mut out, &t.table_name);
    out.append(",\"table_rules\":");
    append_opt_field(&mut out, &t.table_rules);
    out.append(",\"table_save_date\":");
    append_opt_field(&mut out, &t.table_save_date);
    out.append(",\"table_save_rev\":");
    append_opt_field(&mut out, &t.table_save_rev);
    out.append(",\"table_version\":");
    append_opt_field(&mut out, &t.table_version);
    out.append("}");
    proof {
        assert(sorted_dedup_rel(t.properties@, sorted@));
        assert(out@ == doc_json(*t, sorted@));
    }
    out
}

/// The full table-info pipeline after decoding: build the document and
/// marshal it as a null-terminated buffer. The only failure is `Encoding`,
/// exactly when the document's UTF-8 bytes hold an embedded null byte.
pub fn table_info_output(t: &TableRecord) -> (r: Result<OutputBuffer, ExtractError>)
    ensures
        match r {
            Ok(b) => exists|ps: Seq<(String, String)>|
                {
                    &&& #[trigger] sorted_dedup_rel(t.properties@, ps)
                    &&& !encode_utf8(doc_json(*t, ps)).contains(0u8)
                    &&& b@ == encode_utf8(doc_json(*t, ps)).push(0u8)
                    &&& b.wf()
                },
            Err(e) => {
                &&& e == ExtractError::Encoding
                &&& exists|ps: Seq<(String, String)>|
                    #[trigger] sorted_dedup_rel(t.properties@, ps) && encode_utf8(
                        doc_json(*t, ps),
                    ).contains(0u8)
            },
        },
{
    let s = table_info_to_json(t);
    let ghost ps = choose|ps: Seq<(String, String)>|
        #[trigger] sorted_dedup_rel(t.properties@, ps) && s@ == doc_json(*t, ps);
    match marshal_output(s.as_str()) {
        Ok(b) => {
            proof {
                assert(sorted_dedup_rel(t.properties@, ps) && b@ == encode_utf8(
                    doc_json(*t, ps),
                ).push(0u8));
            }
            Ok(b)
        },
        Err(e) => {
            proof {
                assert(sorted_dedup_rel(t.properties@, ps) && encode_utf8(
                    doc_json(*t, ps),
                ).contains(0u8));
            }
            Err(e)
        },
    }
}

} // verus!
