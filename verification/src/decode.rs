//! Decoding a parsed JSON payload into the response model.
//!
//! The wire format uses lower-camel-case keys (`partOfSpeech`, `sourceUrls`);
//! the model uses the corresponding semantic names. Required fields that are
//! missing or mistyped fail the decode; optional fields that are missing or
//! null are treated as absent.

use vstd::prelude::*;

use crate::json::{Json, JsonVal, json_view, json_view_members, json_view_seq,
    lemma_json_view_members, lemma_json_view_seq};
use crate::model::{Definition, DefinitionView, License, LicenseView, LookupResult,
    LookupResultView, Meaning, MeaningView, Phonetic, PhoneticView};

verus! {

/// Decoding failed: a required field was missing or some field was mistyped.
#[derive(Clone, Copy, Debug, PartialEq, Eq, Structural)]
pub struct DecodeError;

/// The value under the first member of `ms` whose key reads `key`.
pub open spec fn member_lookup(ms: Seq<(Seq<char>, JsonVal)>, key: Seq<char>) -> Option<JsonVal>
    decreases ms.len(),
{
    if ms.len() == 0 {
        None
    } else if ms[0].0 == key {
        Some(ms[0].1)
    } else {
        member_lookup(ms.subrange(1, ms.len() as int), key)
    }
}

/// The value of the object field `key` of `j`, if `j` is an object that has
/// that field.
pub open spec fn field_of(j: JsonVal, key: Seq<char>) -> Option<JsonVal> {
    match j {
        JsonVal::Obj(ms) => member_lookup(ms, key),
        _ => None,
    }
}

/// A required string field: its characters, or `None` when the field is
/// missing or not a string.
pub open spec fn spec_req_str(j: JsonVal, key: Seq<char>) -> Option<Seq<char>> {
    match field_of(j, key) {
        Some(JsonVal::Str(s)) => Some(s),
        _ => None,
    }
}

/// An optional string field: the outer `None` means the field is mistyped,
/// the inner `None` that it is absent or null.
pub open spec fn spec_opt_str(j: JsonVal, key: Seq<char>) -> Option<Option<Seq<char>>> {
    match field_of(j, key) {
        None => Some(None),
        Some(JsonVal::Null) => Some(None),
        Some(JsonVal::Str(s)) => Some(Some(s)),
        Some(_) => None,
    }
}

/// The characters of each item, or `None` if some item is not a string.
pub open spec fn spec_str_items(items: Seq<JsonVal>) -> Option<Seq<Seq<char>>>
    decreases items.len(),
{
    if items.len() == 0 {
        Some(Seq::empty())
    } else {
        match (spec_str_items(items.drop_last()), items.last()) {
            (Some(ss), JsonVal::Str(s)) => Some(ss.push(s)),
            _ => None,
        }
    }
}

/// An optional list-of-strings field: the outer `None` means the field or an
/// item is mistyped, the inner `None` that the field is absent or null.
pub open spec fn spec_opt_str_list(j: JsonVal, key: Seq<char>) -> Option<Option<Seq<Seq<char>>>> {
    match field_of(j, key) {
        None => Some(None),
        Some(JsonVal::Null) => Some(None),
        Some(JsonVal::Arr(items)) => match spec_str_items(items) {
            Some(ss) => Some(Some(ss)),
            None => None,
        },
        Some(_) => None,
    }
}

/// What decoding one definition object yields, if it decodes.
pub open spec fn spec_decode_definition(j: JsonVal) -> Option<DefinitionView> {
    match (
        spec_req_str(j, "definition"@),
        spec_opt_str(j, "example"@),
        spec_opt_str_list(j, "synonyms"@),
        spec_opt_str_list(j, "antonyms"@),
    ) {
        (Some(d), Some(e), Some(s), Some(a)) => Some(
            DefinitionView { definition: d, example: e, synonyms: s, antonyms: a },
        ),
        _ => None,
    }
}

/// What decoding a list of definition objects yields, if every one decodes.
pub open spec fn spec_decode_definitions(items: Seq<JsonVal>) -> Option<Seq<DefinitionView>>
    decreases items.len(),
{
    if items.len() == 0 {
        Some(Seq::empty())
    } else {
        match (spec_decode_definitions(items.drop_last()), spec_decode_definition(items.last())) {
            (Some(ds), Some(d)) => Some(ds.push(d)),
            _ => None,
        }
    }
}

proof fn lemma_member_lookup_skip(ms: Seq<(Seq<char>, JsonVal)>, key: Seq<char>, i: int)
    requires
        0 <= i <= ms.len(),
        forall|k: int| 0 <= k < i ==> ms[k].0 != key,
    ensures
        member_lookup(ms, key) == member_lookup(ms.subrange(i, ms.len() as int), key),
    decreases i,
{
    if i > 0 {
        lemma_member_lookup_skip(ms, key, i - 1);
        let rest = ms.subrange(i - 1, ms.len() as int);
        assert(rest[0] == ms[i - 1]);
        assert(rest.subrange(1, rest.len() as int) =~= ms.subrange(i, ms.len() as int));
    } else {
        assert(ms.subrange(0, ms.len() as int) =~= ms);
    }
}

/// The field `key` of the object `j`, borrowed, or `None` when `j` is not an
/// object or has no such field.
pub fn get_member<'a>(j: &'a Json, key: &str) -> (r: Option<&'a Json>)
    ensures
        match r {
            Some(m) => field_of(j@, key@) == Some(m@),
            None => field_of(j@, key@) is None,
        },
{
    match j {
        Json::Obj(members) => {
            proof {
                lemma_json_view_members(members@);
            }
            let ghost mv = json_view_members(members@);
            let n = members.len();
            let mut i: usize = 0;
            while i < n
                invariant
                    i <= n,
                    n == members@.len(),
                    mv == json_view_members(members@),
                    mv.len() == n,
                    forall|k: int| 0 <= k < n ==> mv[k] == (members@[k].0@, json_view(
                        members@[k].1,
                    )),
                    j@ == JsonVal::Obj(mv),
                    forall|k: int| 0 <= k < i ==> mv[k].0 != key@,
                decreases n - i,
            {
                if crate::text::str_eq(members[i].0.as_str(), key) {
                    proof {
                        lemma_member_lookup_skip(mv, key@, i as int);
                        let rest = mv.subrange(i as int, mv.len() as int);
                        assert(rest[0] == mv[i as int]);
                    }
                    return Some(&members[i].1);
                }
                i = i + 1;
            }
            proof {
                lemma_member_lookup_skip(mv, key@, n as int);
                assert(mv.subrange(n as int, mv.len() as int) =~= Seq::<
                    (Seq<char>, JsonVal),
                >::empty());
            }
            None
        },
        _ => None,
    }
}

/// A required string field of `j`, copied out.
pub fn get_req_str(j: &Json, key: &str) -> (r: Result<String, DecodeError>)
    ensures
        r matches Ok(s) ==> spec_req_str(j@, key@) == Some(s@),
        r is Err <==> spec_req_str(j@, key@) is None,
{
    match get_member(j, key) {
        Some(m) => match m {
            Json::Str(s) => Ok(s.clone()),
            _ => Err(DecodeError),
        },
        None => Err(DecodeError),
    }
}

/// An optional string field of `j`: absent or null becomes `None`, a string
/// is copied out, anything else fails.
pub fn get_opt_str(j: &Json, key: &str) -> (r: Result<Option<String>, DecodeError>)
    ensures
        r matches Ok(o) ==> spec_opt_str(j@, key@) == Some(o.deep_view()),
        r is Err <==> spec_opt_str(j@, key@) is None,
{
    match get_member(j, key) {
        None => Ok(None),
        Some(m) => match m {
            Json::Null => Ok(None),
            Json::Str(s) => Ok(Some(s.clone())),
            _ => Err(DecodeError),
        },
    }
}

proof fn lemma_str_items_bad(items: Seq<JsonVal>, i: int)
    requires
        0 <= i < items.len(),
        !(items[i] is Str),
    ensures
        spec_str_items(items) is None,
    decreases items.len(),
{
    if i < items.len() - 1 {
        lemma_str_items_bad(items.drop_last(), i);
    }
}

/// Copies out a list of strings, failing if some item is not a string.
fn get_string_items(items: &Vec<Json>) -> (r: Result<Vec<String>, DecodeError>)
    ensures
        r matches Ok(v) ==> spec_str_items(json_view_seq(items@)) == Some(v.deep_view()),
        r is Err <==> spec_str_items(json_view_seq(items@)) is None,
{
    proof {
        lemma_json_view_seq(items@);
    }
    let ghost iv = json_view_seq(items@);
    let mut out: Vec<String> = Vec::new();
    let n = items.len();
    let mut i: usize = 0;
    proof {
        assert(iv.subrange(0, 0) =~= Seq::<JsonVal>::empty());
        assert(out.deep_view() =~= Seq::<Seq<char>>::empty());
    }
    while i < n
        invariant
            i <= n,
            n == items@.len(),
            iv == json_view_seq(items@),
            iv.len() == n,
            forall|k: int| 0 <= k < n ==> iv[k] == json_view(items@[k]),
            spec_str_items(iv.subrange(0, i as int)) == Some(out.deep_view()),
        decreases n - i,
    {
        match &items[i] {
            Json::Str(s) => {
                let ghost old_dv = out.deep_view();
                out.push(s.clone());
                proof {
                    let pre = iv.subrange(0, i as int);
                    let cur = iv.subrange(0, i + 1);
                    assert(cur.drop_last() =~= pre);
                    assert(cur.last() == iv[i as int]);
                    assert(out.deep_view() =~= old_dv.push(s@));
                }
            },
            _ => {
                proof {
                    lemma_str_items_bad(iv, i as int);
                }
                return Err(DecodeError);
            },
        }
        i = i + 1;
    }
    proof {
        assert(iv.subrange(0, n as int) =~= iv);
    }
    Ok(out)
}

/// An optional list-of-strings field of `j`: absent or null becomes `None`,
/// a list of strings is copied out, anything else fails.
pub fn get_opt_str_list(j: &Json, key: &str) -> (r: Result<Option<Vec<String>>, DecodeError>)
    ensures
        r matches Ok(o) ==> spec_opt_str_list(j@, key@) == Some(o.deep_view()),
        r is Err <==> spec_opt_str_list(j@, key@) is None,
{
    match get_member(j, key) {
        None => Ok(None),
        Some(m) => match m {
            Json::Null => Ok(None),
            Json::Arr(items) => match get_string_items(items) {
                Ok(v) => Ok(Some(v)),
                Err(e) => Err(e),
            },
            _ => Err(DecodeError),
        },
    }
}

/// Decodes one definition object.
pub fn decode_definition(j: &Json) -> (r: Result<Definition, DecodeError>)
    ensures
        r matches Ok(d) ==> spec_decode_definition(j@) == Some(d@),
        r is Err <==> spec_decode_definition(j@) is None,
{
    let definition = match get_req_str(j, "definition") {
        Ok(s) => s,
        Err(e) => {
            return Err(e);
        },
    };
    let example = match get_opt_str(j, "example") {
        Ok(o) => o,
        Err(e) => {
            return Err(e);
        },
    };
    let synonyms = match get_opt_str_list(j, "synonyms") {
        Ok(o) => o,
        Err(e) => {
            return Err(e);
        },
    };
    let antonyms = match get_opt_str_list(j, "antonyms") {
        Ok(o) => o,
        Err(e) => {
            return Err(e);
        },
    };
    Ok(Definition { definition, example, synonyms, antonyms })
}

/// What decoding one pronunciation entry yields: an object whose `text` and
/// `audio` fields are optional strings.
pub open spec fn spec_decode_phonetic(j: JsonVal) -> Option<PhoneticView> {
    if j is Obj {
        match (spec_opt_str(j, "text"@), spec_opt_str(j, "audio"@)) {
            (Some(t), Some(a)) => Some(PhoneticView { text: t, audio: a }),
            _ => None,
        }
    } else {
        None
    }
}

/// What decoding a list of pronunciation entries yields, if every one does.
pub open spec fn spec_decode_phonetics(items: Seq<JsonVal>) -> Option<Seq<PhoneticView>>
    decreases items.len(),
{
    if items.len() == 0 {
        Some(Seq::empty())
    } else {
        match (spec_decode_phonetics(items.drop_last()), spec_decode_phonetic(items.last())) {
            (Some(ps), Some(p)) => Some(ps.push(p)),
            _ => None,
        }
    }
}

/// What decoding a licence object yields: `name` and `url` are required
/// strings.
pub open spec fn spec_decode_license(j: JsonVal) -> Option<LicenseView> {
    match (spec_req_str(j, "name"@), spec_req_str(j, "url"@)) {
        (Some(n), Some(u)) => Some(LicenseView { name: n, url: u }),
        _ => None,
    }
}

/// What decoding one meaning object yields: `definitions` is a required list,
/// the part of speech and the word lists are optional.
pub open spec fn spec_decode_meaning(j: JsonVal) -> Option<MeaningView> {
    match field_of(j, "definitions"@) {
        Some(JsonVal::Arr(items)) => match (
            spec_opt_str(j, "partOfSpeech"@),
            spec_decode_definitions(items),
            spec_opt_str_list(j, "synonyms"@),
            spec_opt_str_list(j, "antonyms"@),
        ) {
            (Some(p), Some(ds), Some(s), Some(a)) => Some(
                MeaningView { part_of_speech: p, definitions: ds, synonyms: s, antonyms: a },
            ),
            _ => None,
        },
        _ => None,
    }
}

/// What decoding a list of meaning objects yields, if every one does.
pub open spec fn spec_decode_meanings(items: Seq<JsonVal>) -> Option<Seq<MeaningView>>
    decreases items.len(),
{
    if items.len() == 0 {
        Some(Seq::empty())
    } else {
        match (spec_decode_meanings(items.drop_last()), spec_decode_meaning(items.last())) {
            (Some(ms), Some(m)) => Some(ms.push(m)),
            _ => None,
        }
    }
}

/// The optional `phonetics` field: absent or null is absent, a list is
/// decoded entry by entry, anything else is mistyped.
pub open spec fn spec_opt_phonetics(j: JsonVal) -> Option<Option<Seq<PhoneticView>>> {
    match field_of(j, "phonetics"@) {
        None => Some(None),
        Some(JsonVal::Null) => Some(None),
        Some(JsonVal::Arr(items)) => match spec_decode_phonetics(items) {
            Some(ps) => Some(Some(ps)),
            None => None,
        },
        Some(_) => None,
    }
}

/// The optional `license` field: absent or null is absent, anything else
/// must decode as a licence object.
pub open spec fn spec_opt_license(j: JsonVal) -> Option<Option<LicenseView>> {
    match field_of(j, "license"@) {
        None => Some(None),
        Some(JsonVal::Null) => Some(None),
        Some(l) => match spec_decode_license(l) {
            Some(lv) => Some(Some(lv)),
            None => None,
        },
    }
}

/// What decoding one response entry yields: the headword and the meanings
/// are required, everything else is optional.
pub open spec fn spec_decode_result(j: JsonVal) -> Option<LookupResultView> {
    match field_of(j, "meanings"@) {
        Some(JsonVal::Arr(items)) => match (
            spec_req_str(j, "word"@),
            spec_opt_str(j, "phonetic"@),
            spec_opt_phonetics(j),
            spec_decode_meanings(items),
            spec_opt_license(j),
            spec_opt_str_list(j, "sourceUrls"@),
        ) {
            (Some(w), Some(p), Some(ph), Some(ms), Some(l), Some(su)) => Some(
                LookupResultView {
                    word: w,
                    phonetic: p,
                    phonetics: ph,
                    meanings: ms,
                    license: l,
                    source_urls: su,
                },
            ),
            _ => None,
        },
        _ => None,
    }
}

/// What decoding a list of response entries yields, if every one does.
pub open spec fn spec_decode_results(items: Seq<JsonVal>) -> Option<Seq<LookupResultView>>
    decreases items.len(),
{
    if items.len() == 0 {
        Some(Seq::empty())
    } else {
        match (spec_decode_results(items.drop_last()), spec_decode_result(items.last())) {
            (Some(rs), Some(r)) => Some(rs.push(r)),
            _ => None,
        }
    }
}

/// What decoding a whole payload yields: one entry for a single object, one
/// entry per element for an array of objects.
pub open spec fn spec_decode_payload(j: JsonVal) -> Option<Seq<LookupResultView>> {
    match j {
        JsonVal::Obj(_) => match spec_decode_result(j) {
            Some(r) => Some(seq![r]),
            None => None,
        },
        JsonVal::Arr(items) => spec_decode_results(items),
        _ => None,
    }
}

proof fn lemma_decode_definitions_bad(items: Seq<JsonVal>, i: int)
    requires
        0 <= i < items.len(),
        spec_decode_definition(items[i]) is None,
    ensures
        spec_decode_definitions(items) is None,
    decreases items.len(),
{
    if i < items.len() - 1 {
        lemma_decode_definitions_bad(items.drop_last(), i);
    }
}

/// Decodes a list of definition objects, in order.
pub fn decode_definitions(items: &Vec<Json>) -> (r: Result<Vec<Definition>, DecodeError>)
    ensures
        r matches Ok(v) ==> spec_decode_definitions(json_view_seq(items@)) == Some(v.deep_view()),
        r is Err <==> spec_decode_definitions(json_view_seq(items@)) is None,
{
    proof {
        lemma_json_view_seq(items@);
    }
    let ghost iv = json_view_seq(items@);
    let mut out: Vec<Definition> = Vec::new();
    let n = items.len();
    let mut i: usize = 0;
    proof {
        assert(iv.subrange(0, 0) =~= Seq::<JsonVal>::empty());
        assert(out.deep_view() =~= Seq::<DefinitionView>::empty());
    }
    while i < n
        invariant
            i <= n,
            n == items@.len(),
            iv == json_view_seq(items@),
            iv.len() == n,
            forall|k: int| 0 <= k < n ==> iv[k] == json_view(items@[k]),
            spec_decode_definitions(iv.subrange(0, i as int)) == Some(out.deep_view()),
        decreases n - i,
    {
        match decode_definition(&items[i]) {
            Ok(d) => {
                let ghost old_dv = out.deep_view();
                let ghost dv = d@;
                out.push(d);
                proof {
                    let pre = iv.subrange(0, i as int);
                    let cur = iv.subrange(0, i + 1);
                    assert(cur.drop_last() =~= pre);
                    assert(cur.last() == iv[i as int]);
                    assert(out.deep_view() =~= old_dv.push(dv));
                }
            },
            Err(e) => {
                proof {
                    lemma_decode_definitions_bad(iv, i as int);
                }
                return Err(e);
            },
        }
        i = i + 1;
    }
    proof {
        assert(iv.subrange(0, n as int) =~= iv);
    }
    Ok(out)
}

/// Decodes one pronunciation entry.
pub fn decode_phonetic(j: &Json) -> (r: Result<Phonetic, DecodeError>)
    ensures
        r matches Ok(p) ==> spec_decode_phonetic(j@) == Some(p@),
        r is Err <==> spec_decode_phonetic(j@) is None,
{
    match j {
        Json::Obj(_) => {
            let text = match get_opt_str(j, "text") {
                Ok(o) => o,
                Err(e) => {
                    return Err(e);
                },
            };
            let audio = match get_opt_str(j, "audio") {
                Ok(o) => o,
                Err(e) => {
                    return Err(e);
                },
            };
            Ok(Phonetic { text, audio })
        },
        _ => Err(DecodeError),
    }
}

proof fn lemma_decode_phonetics_bad(items: Seq<JsonVal>, i: int)
    requires
        0 <= i < items.len(),
        spec_decode_phonetic(items[i]) is None,
    ensures
        spec_decode_phonetics(items) is None,
    decreases items.len(),
{
    if i < items.len() - 1 {
        lemma_decode_phonetics_bad(items.drop_last(), i);
    }
}

/// Decodes a list of pronunciation entries, in order.
pub fn decode_phonetics(items: &Vec<Json>) -> (r: Result<Vec<Phonetic>, DecodeError>)
    ensures
        r matches Ok(v) ==> spec_decode_phonetics(json_view_seq(items@)) == Some(v.deep_view()),
        r is Err <==> spec_decode_phonetics(json_view_seq(items@)) is None,
{
    proof {
        lemma_json_view_seq(items@);
    }
    let ghost iv = json_view_seq(items@);
    let mut out: Vec<Phonetic> = Vec::new();
    let n = items.len();
    let mut i: usize = 0;
    proof {
        assert(iv.subrange(0, 0) =~= Seq::<JsonVal>::empty());
        assert(out.deep_view() =~= Seq::<PhoneticView>::empty());
    }
    while i < n
        invariant
            i <= n,
            n == items@.len(),
            iv == json_view_seq(items@),
            iv.len() == n,
            forall|k: int| 0 <= k < n ==> iv[k] == json_view(items@[k]),
            spec_decode_phonetics(iv.subrange(0, i as int)) == Some(out.deep_view()),
        decreases n - i,
    {
        match decode_phonetic(&items[i]) {
            Ok(p) => {
                let ghost old_dv = out.deep_view();
                let ghost pv = p@;
                out.push(p);
                proof {
                    let pre = iv.subrange(0, i as int);
                    let cur = iv.subrange(0, i + 1);
                    assert(cur.drop_last() =~= pre);
                    assert(cur.last() == iv[i as int]);
                    assert(out.deep_view() =~= old_dv.push(pv));
                }
            },
            Err(e) => {
                proof {
                    lemma_decode_phonetics_bad(iv, i as int);
                }
                return Err(e);
            },
        }
        i = i + 1;
    }
    proof {
        assert(iv.subrange(0, n as int) =~= iv);
    }
    Ok(out)
}

/// Decodes a licence object.
pub fn decode_license(j: &Json) -> (r: Result<License, DecodeError>)
    ensures
        r matches Ok(l) ==> spec_decode_license(j@) == Some(l@),
        r is Err <==> spec_decode_license(j@) is None,
{
    let name = match get_req_str(j, "name") {
        Ok(s) => s,
        Err(e) => {
            return Err(e);
        },
    };
    let url = match get_req_str(j, "url") {
        Ok(s) => s,
        Err(e) => {
            return Err(e);
        },
    };
    Ok(License { name, url })
}

/// Decodes one meaning object.
pub fn decode_meaning(j: &Json) -> (r: Result<Meaning, DecodeError>)
    ensures
        r matches Ok(m) ==> spec_decode_meaning(j@) == Some(m@),
        r is Err <==> spec_decode_meaning(j@) is None,
{
    let definitions = match get_member(j, "definitions") {
        Some(m) => match m {
            Json::Arr(items) => match decode_definitions(items) {
                Ok(v) => v,
                Err(e) => {
                    return Err(e);
                },
            },
            _ => {
                return Err(DecodeError);
            },
        },
        None => {
            return Err(DecodeError);
        },
    };
    let part_of_speech = match get_opt_str(j, "partOfSpeech") {
        Ok(o) => o,
        Err(e) => {
            return Err(e);
        },
    };
    let synonyms = match get_opt_str_list(j, "synonyms") {
        Ok(o) => o,
        Err(e) => {
            return Err(e);
        },
    };
    let antonyms = match get_opt_str_list(j, "antonyms") {
        Ok(o) => o,
        Err(e) => {
            return Err(e);
        },
    };
    Ok(Meaning { part_of_speech, definitions, synonyms, antonyms })
}

proof fn lemma_decode_meanings_bad(items: Seq<JsonVal>, i: int)
    requires
        0 <= i < items.len(),
        spec_decode_meaning(items[i]) is None,
    ensures
        spec_decode_meanings(items) is None,
    decreases items.len(),
{
    if i < items.len() - 1 {
        lemma_decode_meanings_bad(items.drop_last(), i);
    }
}

/// Decodes a list of meaning objects, in order.
pub fn decode_meanings(items: &Vec<Json>) -> (r: Result<Vec<Meaning>, DecodeError>)
    ensures
        r matches Ok(v) ==> spec_decode_meanings(json_view_seq(items@)) == Some(v.deep_view()),
        r is Err <==> spec_decode_meanings(json_view_seq(items@)) is None,
{
    proof {
        lemma_json_view_seq(items@);
    }
    let ghost iv = json_view_seq(items@);
    let mut out: Vec<Meaning> = Vec::new();
    let n = items.len();
    let mut i: usize = 0;
    proof {
        assert(iv.subrange(0, 0) =~= Seq::<JsonVal>::empty());
        assert(out.deep_view() =~= Seq::<MeaningView>::empty());
    }
    while i < n
        invariant
            i <= n,
            n == items@.len(),
            iv == json_view_seq(items@),
            iv.len() == n,
            forall|k: int| 0 <= k < n ==> iv[k] == json_view(items@[k]),
            spec_decode_meanings(iv.subrange(0, i as int)) == Some(out.deep_view()),
        decreases n - i,
    {
        match decode_meaning(&items[i]) {
            Ok(m) => {
                let ghost old_dv = out.deep_view();
                let ghost mv = m@;
                out.push(m);
                proof {
                    let pre = iv.subrange(0, i as int);
                    let cur = iv.subrange(0, i + 1);
                    assert(cur.drop_last() =~= pre);
                    assert(cur.last() == iv[i as int]);
                    assert(out.deep_view() =~= old_dv.push(mv));
                }
            },
            Err(e) => {
                proof {
                    lemma_decode_meanings_bad(iv, i as int);
                }
                return Err(e);
            },
        }
        i = i + 1;
    }
    proof {
        assert(iv.subrange(0, n as int) =~= iv);
    }
    Ok(out)
}

/// Decodes one response entry.
pub fn decode_result(j: &Json) -> (r: Result<LookupResult, DecodeError>)
    ensures
        r matches Ok(res) ==> spec_decode_result(j@) == Some(res@),
        r is Err <==> spec_decode_result(j@) is None,
{
    let meanings = match get_member(j, "meanings") {
        Some(m) => match m {
            Json::Arr(items) => match decode_meanings(items) {
                Ok(v) => v,
                Err(e) => {
                    return Err(e);
                },
            },
            _ => {
                return Err(DecodeError);
            },
        },
        None => {
            return Err(DecodeError);
        },
    };
    let word = match get_req_str(j, "word") {
        Ok(s) => s,
        Err(e) => {
            return Err(e);
        },
    };
    let phonetic = match get_opt_str(j, "phonetic") {
        Ok(o) => o,
        Err(e) => {
            return Err(e);
        },
    };
    let phonetics = match get_member(j, "phonetics") {
        None => None,
        Some(m) => match m {
            Json::Null => None,
            Json::Arr(items) => match decode_phonetics(items) {
                Ok(v) => Some(v),
                Err(e) => {
                    return Err(e);
                },
            },
            _ => {
                return Err(DecodeError);
            },
        },
    };
    let license = match get_member(j, "license") {
        None => None,
        Some(m) => match m {
            Json::Null => None,
            _ => match decode_license(m) {
                Ok(l) => Some(l),
                Err(e) => {
                    return Err(e);
                },
            },
        },
    };
    let source_urls = match get_opt_str_list(j, "sourceUrls") {
        Ok(o) => o,
        Err(e) => {
            return Err(e);
        },
    };
    Ok(LookupResult { word, phonetic, phonetics, meanings, license, source_urls })
}

proof fn lemma_decode_results_bad(items: Seq<JsonVal>, i: int)
    requires
        0 <= i < items.len(),
        spec_decode_result(items[i]) is None,
    ensures
        spec_decode_results(items) is None,
    decreases items.len(),
{
    if i < items.len() - 1 {
        lemma_decode_results_bad(items.drop_last(), i);
    }
}

/// Decodes a list of response entries, in order.
pub fn decode_results(items: &Vec<Json>) -> (r: Result<Vec<LookupResult>, DecodeError>)
    ensures
        r matches Ok(v) ==> spec_decode_results(json_view_seq(items@)) == Some(v.deep_view()),
        r is Err <==> spec_decode_results(json_view_seq(items@)) is None,
{
    proof {
        lemma_json_view_seq(items@);
    }
    let ghost iv = json_view_seq(items@);
    let mut out: Vec<LookupResult> = Vec::new();
    let n = items.len();
    let mut i: usize = 0;
    proof {
        assert(iv.subrange(0, 0) =~= Seq::<JsonVal>::empty());
        assert(out.deep_view() =~= Seq::<LookupResultView>::empty());
    }
    while i < n
        invariant
            i <= n,
            n == items@.len(),
            iv == json_view_seq(items@),
            iv.len() == n,
            forall|k: int| 0 <= k < n ==> iv[k] == json_view(items@[k]),
            spec_decode_results(iv.subrange(0, i as int)) == Some(out.deep_view()),
        decreases n - i,
    {
        match decode_result(&items[i]) {
            Ok(res) => {
                let ghost old_dv = out.deep_view();
                let ghost rv = res@;
                out.push(res);
                proof {
                    let pre = iv.subrange(0, i as int);
                    let cur = iv.subrange(0, i + 1);
                    assert(cur.drop_last() =~= pre);
                    assert(cur.last() == iv[i as int]);
                    assert(out.deep_view() =~= old_dv.push(rv));
                }
            },
            Err(e) => {
                proof {
                    lemma_decode_results_bad(iv, i as int);
                }
                return Err(e);
            },
        }
        i = i + 1;
    }
    proof {
        assert(iv.subrange(0, n as int) =~= iv);
    }
    Ok(out)
}

/// Decodes a whole payload value: a single object yields one entry, an array
/// yields one entry per element.
pub fn decode_payload(j: &Json) -> (r: Result<Vec<LookupResult>, DecodeError>)
    ensures
        r matches Ok(v) ==> spec_decode_payload(j@) == Some(v.deep_view()),
        r is Err <==> spec_decode_payload(j@) is None,
{
    match j {
        Json::Obj(_) => match decode_result(j) {
            Ok(res) => {
                let ghost rv = res@;
                let mut out: Vec<LookupResult> = Vec::new();
                out.push(res);
                proof {
                    assert(out.deep_view() =~= seq![rv]);
                }
                Ok(out)
            },
            Err(e) => Err(e),
        },
        Json::Arr(items) => decode_results(items),
        _ => Err(DecodeError),
    }
}

/// Decodes a raw JSON payload into the response model: the text is parsed as
/// JSON and the parsed value decoded entry by entry.
pub fn decode_response(s: &str) -> (r: Result<Vec<LookupResult>, DecodeError>)
    ensures
        match crate::json::json_of(s@) {
            Some(jv) => {
                &&& (r matches Ok(v) ==> spec_decode_payload(jv) == Some(v.deep_view()))
                &&& (r is Err <==> spec_decode_payload(jv) is None)
            },
            None => r is Err,
        },
{
    match crate::json::parse_json(s) {
        Some(j) => decode_payload(&j),
        None => Err(DecodeError),
    }
}

/// A decoded definition list has one entry per element, each the decode of
/// its element, in order.
pub proof fn lemma_decode_definitions_elementwise(items: Seq<JsonVal>)
    ensures
        spec_decode_definitions(items) matches Some(ds) ==> {
            &&& ds.len() == items.len()
            &&& forall|k: int| 0 <= k < items.len() ==> spec_decode_definition(items[k])
                == Some(ds[k])
        },
    decreases items.len(),
{
    if items.len() > 0 {
        lemma_decode_definitions_elementwise(items.drop_last());
    }
}

/// A decoded meaning list has one entry per element, each the decode of its
/// element, in order.
pub proof fn lemma_decode_meanings_elementwise(items: Seq<JsonVal>)
    ensures
        spec_decode_meanings(items) matches Some(ms) ==> {
            &&& ms.len() == items.len()
            &&& forall|k: int| 0 <= k < items.len() ==> spec_decode_meaning(items[k]) == Some(
                ms[k],
            )
        },
    decreases items.len(),
{
    if items.len() > 0 {
        lemma_decode_meanings_elementwise(items.drop_last());
    }
}

/// A decoded definition carries the required `definition` text unchanged.
pub proof fn lemma_definition_preserves_required_fields(j: JsonVal)
    ensures
        spec_decode_definition(j) matches Some(d) ==> spec_req_str(j, "definition"@) == Some(
            d.definition,
        ),
{
}

/// A decoded meaning keeps every required field of its object unchanged:
/// one decoded definition per element of `definitions`, each with exactly
/// the `definition` text of its element.
pub proof fn lemma_meaning_preserves_required_fields(j: JsonVal)
    ensures
        spec_decode_meaning(j) matches Some(m) ==> {
            &&& field_of(j, "definitions"@) matches Some(JsonVal::Arr(items))
            &&& m.definitions.len() == (match field_of(j, "definitions"@) {
                Some(JsonVal::Arr(items2)) => items2.len() as int,
                _ => 0,
            })
            &&& forall|i: int|
                0 <= i < m.definitions.len() ==> (match field_of(j, "definitions"@) {
                    Some(JsonVal::Arr(ds)) => spec_decode_definition(ds[i]) == Some(
                        #[trigger] m.definitions[i],
                    ) && spec_req_str(ds[i], "definition"@) == Some(m.definitions[i].definition),
                    _ => false,
                })
        },
{
    match spec_decode_meaning(j) {
        Some(m) => {
            match field_of(j, "definitions"@) {
                Some(jd) => {
                    match jd {
                        JsonVal::Arr(ds) => {
                            lemma_decode_definitions_elementwise(ds);
                            assert forall|i: int| 0 <= i < m.definitions.len() implies (
                            spec_decode_definition(ds[i]) == Some(#[trigger] m.definitions[i])
                                && spec_req_str(ds[i], "definition"@) == Some(
                                m.definitions[i].definition,
                            )) by {
                                lemma_definition_preserves_required_fields(ds[i]);
                            }
                        },
                        _ => {},
                    }
                },
                None => {},
            }
        },
        None => {},
    }
}

/// Round trip on required fields: a decoded entry carries the required
/// `word` text unchanged, has one decoded meaning per element of the
/// required `meanings` list, and each meaning carries each of its
/// definitions' required `definition` text unchanged.
pub proof fn lemma_decode_preserves_required_fields(j: JsonVal)
    ensures
        spec_decode_result(j) matches Some(r) ==> spec_req_str(j, "word"@) == Some(r.word),
        spec_decode_result(j) matches Some(r) ==> {
            &&& field_of(j, "meanings"@) matches Some(JsonVal::Arr(items))
            &&& r.meanings.len() == (match field_of(j, "meanings"@) {
                Some(JsonVal::Arr(items2)) => items2.len() as int,
                _ => 0,
            })
            &&& forall|k: int|
                0 <= k < r.meanings.len() ==> (match field_of(j, "meanings"@) {
                    Some(JsonVal::Arr(items2)) => spec_decode_meaning(items2[k]) == Some(
                        #[trigger] r.meanings[k],
                    ),
                    _ => false,
                })
        },
        spec_decode_result(j) matches Some(r) ==> forall|k: int, i: int|
            0 <= k < r.meanings.len() && 0 <= i < r.meanings[k].definitions.len()
                ==> (match field_of(j, "meanings"@) {
                Some(JsonVal::Arr(items2)) => spec_decode_meaning(items2[k]) matches Some(m)
                    && field_of(items2[k], "definitions"@) matches Some(JsonVal::Arr(ds))
                    && spec_req_str(ds[i], "definition"@) == Some(
                    (#[trigger] r.meanings[k].definitions[i]).definition,
                ),
                _ => false,
            }),
{
    match spec_decode_result(j) {
        Some(r) => {
            match field_of(j, "meanings"@) {
                Some(jm) => match jm {
                    JsonVal::Arr(items) => {
                        lemma_decode_meanings_elementwise(items);
                        assert forall|k: int, i: int|
                            0 <= k < r.meanings.len() && 0 <= i
                                < r.meanings[k].definitions.len() implies (
                        spec_decode_meaning(items[k]) matches Some(m) && field_of(
                            items[k],
                            "definitions"@,
                        ) matches Some(JsonVal::Arr(ds)) && spec_req_str(ds[i], "definition"@)
                            == Some(
                            (#[trigger] r.meanings[k].definitions[i]).definition,
                        )) by {
                            assert(spec_decode_meaning(items[k]) == Some(r.meanings[k]));
                            match field_of(items[k], "definitions"@) {
                                Some(jd) => match jd {
                                    JsonVal::Arr(ds) => {
                                        lemma_decode_definitions_elementwise(ds);
                                        lemma_definition_preserves_required_fields(ds[i]);
                                    },
                                    _ => {},
                                },
                                None => {},
                            }
                        }
                    },
                    _ => {},
                },
                None => {},
            }
        },
        None => {},
    }
}

} // verus!
