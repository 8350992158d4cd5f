//! The rules a flow document must follow, and the fields the server
//! manages in it.
use vstd::prelude::*;
use crate::error::{opt_str_view, StoreError};
use crate::flow::{text_member, FlowCore};
use crate::json::{json_get, json_i64, json_removed, json_with, is_object, lemma_get_removed,
    lemma_get_with, Json};
use crate::text::str_eq;

verus! {

/// The formats a flow may have.
pub open spec fn valid_format(f: Seq<char>) -> bool {
    ||| f == "urn:x-nmos:format:video"@
    ||| f == "urn:x-nmos:format:audio"@
    ||| f == "urn:x-nmos:format:image"@
    ||| f == "urn:x-nmos:format:data"@
    ||| f == "urn:x-nmos:format:multi"@
}

/// The message refusing an unknown format.
pub open spec fn unrecognized_format_message(f: Seq<char>) -> Seq<char> {
    "Unrecognized format: "@ + f
        + ". Must be one of: urn:x-nmos:format:video, urn:x-nmos:format:audio, urn:x-nmos:format:image, urn:x-nmos:format:data, urn:x-nmos:format:multi"@
}

/// What a video or image flow lacks, if anything: a codec, essence
/// parameters, a frame width, a frame height, in that order.
pub open spec fn picture_flow_error(doc: Json, f: Seq<char>) -> Option<Seq<char>> {
    if text_member(doc, "codec"@) is None {
        Some(f + " flows require a codec field"@)
    } else if !is_object(json_get(doc, "essence_parameters"@)) {
        Some(f + " flows require essence_parameters"@)
    } else if json_i64(json_get(json_get(doc, "essence_parameters"@)->0, "frame_width"@)) is None {
        Some(f + " flows require essence_parameters.frame_width"@)
    } else if json_i64(json_get(json_get(doc, "essence_parameters"@)->0, "frame_height"@)) is None {
        Some(f + " flows require essence_parameters.frame_height"@)
    } else {
        None
    }
}

/// What an audio flow lacks, if anything: a codec, then essence parameters.
pub open spec fn audio_flow_error(doc: Json) -> Option<Seq<char>> {
    if text_member(doc, "codec"@) is None {
        Some("urn:x-nmos:format:audio flows require a codec field"@)
    } else if !is_object(json_get(doc, "essence_parameters"@)) {
        Some("urn:x-nmos:format:audio flows require essence_parameters"@)
    } else {
        None
    }
}

/// Why a flow document is refused, if it is: the first rule it breaks.
pub open spec fn flow_doc_error(doc: Json) -> Option<Seq<char>> {
    if !(doc is Object) {
        Some("Flow must be a JSON object"@)
    } else {
        match text_member(doc, "id"@) {
            None => Some("Missing required field: id"@),
            Some(id) => if !crate::safe_id(id) {
                Some("Flow ID contains invalid path characters"@)
            } else {
                match text_member(doc, "source_id"@) {
                    None => Some("Missing required field: source_id"@),
                    Some(_) => match text_member(doc, "format"@) {
                        None => Some("Missing required field: format"@),
                        Some(f) => if !valid_format(f) {
                            Some(unrecognized_format_message(f))
                        } else if f == "urn:x-nmos:format:video"@ || f == "urn:x-nmos:format:image"@ {
                            picture_flow_error(doc, f)
                        } else if f == "urn:x-nmos:format:audio"@ {
                            audio_flow_error(doc)
                        } else {
                            None
                        },
                    },
                }
            },
        }
    }
}

fn bad_request(m: String) -> (r: StoreError)
    ensures
        r matches StoreError::BadRequest(x) && x@ == m@,
{
    StoreError::BadRequest(m)
}

fn picture_flow_check(doc: &Json, f: &str) -> (r: Result<(), StoreError>)
    ensures
        match r {
            Ok(()) => picture_flow_error(*doc, f@) is None,
            Err(e) => picture_flow_error(*doc, f@) matches Some(m) && (e matches StoreError::BadRequest(x) && x@ == m),
        },
{
    if doc.get_str("codec").is_none() {
        return Err(bad_request(String::from_str(f).concat(" flows require a codec field")));
    }
    match doc.get("essence_parameters") {
        Some(ep) => {
            if !ep.is_object() {
                return Err(bad_request(String::from_str(f).concat(" flows require essence_parameters")));
            }
            if ep.get_i64("frame_width").is_none() {
                return Err(
                    bad_request(String::from_str(f).concat(" flows require essence_parameters.frame_width")),
                );
            }
            if ep.get_i64("frame_height").is_none() {
                return Err(
                    bad_request(String::from_str(f).concat(" flows require essence_parameters.frame_height")),
                );
            }
            Ok(())
        },
        None => Err(bad_request(String::from_str(f).concat(" flows require essence_parameters"))),
    }
}

fn audio_flow_check(doc: &Json) -> (r: Result<(), StoreError>)
    ensures
        match r {
            Ok(()) => audio_flow_error(*doc) is None,
            Err(e) => audio_flow_error(*doc) matches Some(m) && (e matches StoreError::BadRequest(x) && x@ == m),
        },
{
    if doc.get_str("codec").is_none() {
        return Err(bad_request(String::from_str("urn:x-nmos:format:audio flows require a codec field")));
    }
    match doc.get("essence_parameters") {
        Some(ep) => {
            if !ep.is_object() {
                return Err(bad_request(String::from_str("urn:x-nmos:format:audio flows require essence_parameters")));
            }
            Ok(())
        },
        None => Err(bad_request(String::from_str("urn:x-nmos:format:audio flows require essence_parameters"))),
    }
}

/// Checks a flow document against the flow rules; gives its id, source id
/// and format when it follows them.
pub fn validate_flow_document(doc: &Json) -> (r: Result<(String, String, String), StoreError>)
    ensures
        match r {
            Ok((id, sid, f)) => flow_doc_error(*doc) is None && text_member(*doc, "id"@) == Some(id@)
                && text_member(*doc, "source_id"@) == Some(sid@) && text_member(*doc, "format"@) == Some(f@),
            Err(e) => flow_doc_error(*doc) matches Some(m) && (e matches StoreError::BadRequest(x) && x@ == m),
        },
{
    if !doc.is_object() {
        return Err(bad_request(String::from_str("Flow must be a JSON object")));
    }
    let id = match doc.get_str("id") {
        Some(s) => s.clone(),
        None => {
            return Err(bad_request(String::from_str("Missing required field: id")));
        },
    };
    if !crate::is_safe_id(id.as_str()) {
        return Err(bad_request(String::from_str("Flow ID contains invalid path characters")));
    }
    let source_id = match doc.get_str("source_id") {
        Some(s) => s.clone(),
        None => {
            return Err(bad_request(String::from_str("Missing required field: source_id")));
        },
    };
    let format = match doc.get_str("format") {
        Some(s) => s.clone(),
        None => {
            return Err(bad_request(String::from_str("Missing required field: format")));
        },
    };
    let f = format.as_str();
    let is_video = str_eq(f, "urn:x-nmos:format:video");
    let is_audio = str_eq(f, "urn:x-nmos:format:audio");
    let is_image = str_eq(f, "urn:x-nmos:format:image");
    let is_data = str_eq(f, "urn:x-nmos:format:data");
    let is_multi = str_eq(f, "urn:x-nmos:format:multi");
    if !(is_video || is_audio || is_image || is_data || is_multi) {
        return Err(
            bad_request(
                String::from_str("Unrecognized format: ").concat(f).concat(
                    ". Must be one of: urn:x-nmos:format:video, urn:x-nmos:format:audio, urn:x-nmos:format:image, urn:x-nmos:format:data, urn:x-nmos:format:multi",
                ),
            ),
        );
    }
    if is_video || is_image {
        match picture_flow_check(doc, f) {
            Ok(()) => {},
            Err(e) => {
                return Err(e);
            },
        }
    } else if is_audio {
        match audio_flow_check(doc) {
            Ok(()) => {},
            Err(e) => {
                return Err(e);
            },
        }
    }
    Ok((id, source_id, format))
}

/// The fields of a flow document the server manages; a client's values
/// for them are dropped.
pub open spec fn server_managed(k: Seq<char>) -> bool {
    ||| k == "timerange"@
    ||| k == "collected_by"@
    ||| k == "created"@
    ||| k == "metadata_updated"@
    ||| k == "segments_updated"@
    ||| k == "metadata_version"@
    ||| k == "created_by"@
    ||| k == "updated_by"@
}

/// The server-managed fields a stored flow document carries after a put:
/// created and its creator are kept from the flow it replaces (set anew on
/// creation), segments_updated is kept, the update time and version are new.
pub open spec fn server_fields_set(
    r: Json,
    prev: Option<(Option<Seq<char>>, Option<Seq<char>>, Option<Seq<char>>)>,
    now: Seq<char>,
    version: Seq<char>,
) -> bool {
    &&& text_member(r, "created"@) == match prev {
        None => Some(now),
        Some(p) => p.0,
    }
    &&& text_member(r, "segments_updated"@) == match prev {
        None => None,
        Some(p) => p.1,
    }
    &&& text_member(r, "created_by"@) == match prev {
        None => Some("server"@),
        Some(p) => p.2,
    }
    &&& (json_get(r, "created"@) is Some ==> text_member(r, "created"@) is Some)
    &&& (json_get(r, "segments_updated"@) is Some ==> text_member(r, "segments_updated"@) is Some)
    &&& (json_get(r, "created_by"@) is Some ==> text_member(r, "created_by"@) is Some)
    &&& text_member(r, "metadata_updated"@) == Some(now)
    &&& text_member(r, "metadata_version"@) == Some(version)
    &&& text_member(r, "updated_by"@) == Some("server"@)
    &&& json_get(r, "timerange"@) is None
    &&& json_get(r, "collected_by"@) is None
}

/// The server-managed field names are all different.
pub proof fn lemma_server_keys_distinct()
    ensures
        "timerange"@.len() == 9,
        "collected_by"@.len() == 12,
        "created"@.len() == 7,
        "metadata_updated"@.len() == 16,
        "segments_updated"@.len() == 16,
        "metadata_version"@.len() == 16,
        "created_by"@.len() == 10,
        "updated_by"@.len() == 10,
        "metadata_updated"@ != "segments_updated"@,
        "metadata_updated"@ != "metadata_version"@,
        "segments_updated"@ != "metadata_version"@,
        "created_by"@ != "updated_by"@,
        "timerange"@[0] == 't',
        "collected_by"@[0] == 'c',
        "created"@[0] == 'c',
        "created_by"@[0] == 'c',
        "updated_by"@[0] == 'u',
        "metadata_updated"@[0] == 'm',
        "segments_updated"@[0] == 's',
        "metadata_version"@[0] == 'm',
{
    reveal_strlit("timerange");
    reveal_strlit("collected_by");
    reveal_strlit("created");
    reveal_strlit("metadata_updated");
    reveal_strlit("segments_updated");
    reveal_strlit("metadata_version");
    reveal_strlit("created_by");
    reveal_strlit("updated_by");
    assert("metadata_updated"@[0] != "segments_updated"@[0]);
    assert("metadata_updated"@[9] != "metadata_version"@[9]);
    assert("segments_updated"@[0] != "metadata_version"@[0]);
    assert("created_by"@[0] != "updated_by"@[0]);
}

fn put_text(doc: &mut Json, k: &str, v: &str)
    ensures
        *final(doc) == json_with(*old(doc), k@, final(doc)->Object_0->Cons_0, Json::Str(final(doc)->Object_0->Cons_1->Str_0))
            || !(*old(doc) is Object),
        *old(doc) is Object ==> (*final(doc) is Object && (forall|q: Seq<char>| #[trigger] json_get(*final(doc), q) == if q == k@ {
            Some(Json::Str(final(doc)->Object_0->Cons_1->Str_0))
        } else {
            json_get(*old(doc), q)
        }) && final(doc)->Object_0->Cons_1->Str_0@ == v@),
        !(*old(doc) is Object) ==> *final(doc) == *old(doc),
{
    let ghost before = *doc;
    let name = k.to_owned();
    let value = Json::Str(v.to_owned());
    let ghost nv = name;
    let ghost vv = value;
    doc.insert(name, value);
    proof {
        if before is Object {
            assert forall|q: Seq<char>| #[trigger] json_get(*doc, q) == if q == k@ {
                Some(vv)
            } else {
                json_get(before, q)
            } by {
                lemma_get_with(before, nv, vv, q);
            }
        }
    }
}

fn drop_field(doc: &mut Json, k: &str)
    ensures
        *old(doc) is Object <==> *final(doc) is Object,
        forall|q: Seq<char>| #[trigger] json_get(*final(doc), q) == if q == k@ {
            None
        } else {
            json_get(*old(doc), q)
        },
{
    let ghost before = *doc;
    doc.remove(k);
    proof {
        assert forall|q: Seq<char>| #[trigger] json_get(*doc, q) == if q == k@ {
            None
        } else {
            json_get(before, q)
        } by {
            lemma_get_removed(before, k@, q);
        }
        lemma_get_removed(before, k@, k@);
    }
}

/// Replaces the server-managed fields of a client's flow document: drops
/// the client's values, then sets the creation time and creator (kept from
/// the flow it replaces, if any), segments_updated (kept), the update time,
/// the version and the updater.
pub fn set_server_fields(
    doc: Json,
    prev: Option<(Option<String>, Option<String>, Option<String>)>,
    now: &str,
    version: &str,
) -> (r: Json)
    requires
        doc is Object,
    ensures
        r is Object,
        server_fields_set(
            r,
            match prev {
                None => None,
                Some(p) => Some((opt_str_view(p.0), opt_str_view(p.1), opt_str_view(p.2))),
            },
            now@,
            version@,
        ),
        forall|k: Seq<char>| !server_managed(k) ==> #[trigger] json_get(r, k) == json_get(doc, k),
{
    proof {
        lemma_server_keys_distinct();
    }
    let mut d = doc;
    drop_field(&mut d, "timerange");
    drop_field(&mut d, "collected_by");
    drop_field(&mut d, "created");
    drop_field(&mut d, "metadata_updated");
    drop_field(&mut d, "segments_updated");
    drop_field(&mut d, "metadata_version");
    drop_field(&mut d, "created_by");
    drop_field(&mut d, "updated_by");
    let ghost stripped = d;
    assert(forall|k: Seq<char>| !server_managed(k) ==> #[trigger] json_get(stripped, k) == json_get(doc, k));
    match &prev {
        None => {
            put_text(&mut d, "created", now);
        },
        Some(p) => {
            if let Some(c) = &p.0 {
                put_text(&mut d, "created", c.as_str());
            }
            if let Some(s) = &p.1 {
                put_text(&mut d, "segments_updated", s.as_str());
            }
        },
    }
    put_text(&mut d, "metadata_updated", now);
    put_text(&mut d, "metadata_version", version);
    match &prev {
        None => {
            put_text(&mut d, "created_by", "server");
        },
        Some(p) => {
            if let Some(c) = &p.2 {
                put_text(&mut d, "created_by", c.as_str());
            }
        },
    }
    put_text(&mut d, "updated_by", "server");
    d
}

} // verus!
