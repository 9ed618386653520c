//! Decoding the remote API's response.
//!
//! A successful fetch hands back a JSON document; this module turns it
//! into one page result and its entries, failing closed: a response that
//! does not match the fixed schema — a sense count other than one, an
//! unknown sense field, a malformed number or timestamp — is a decode
//! error, never a silently dropped field. The decoded page result lists
//! exactly the codes of the decoded entries, in page order.

use vstd::prelude::*;
use crate::data::{
    days_in_month, DataView, OpendictData, OpendictDateTime, OpendictResult, ResultView,
};

verus! {

/// Why a response was rejected.
#[derive(Debug, Clone, Copy, PartialEq, Eq, Structural)]
pub enum DecodeError {
    /// The body did not parse as JSON.
    BadJson,
    /// A required field is absent or has the wrong shape.
    MissingField,
    /// A numeric field does not fit its range.
    BadNumber,
    /// The build date is not a valid timestamp.
    BadDatetime,
    /// An item carries a sense count other than one.
    SenseCount,
    /// A sense object carries a field this schema does not know.
    UnknownKey,
}

#[verifier::external_type_specification]
#[verifier::external_body]
pub struct ExJsonValue(serde_json::Value);

#[verifier::external_type_specification]
#[verifier::external_body]
#[verifier::reject_recursive_types(K)]
#[verifier::reject_recursive_types(V)]
pub struct ExJsonMap<K, V>(serde_json::Map<K, V>);

/// A mathematical model of a JSON value, as far as the decoder reads
/// one: a number is kept only in its unsigned 64-bit reading; a value
/// the decoder never takes apart (null, booleans, other numbers) is
/// `Other`.
pub enum JsonModel {
    /// A number with an unsigned 64-bit reading.
    UInt(u64),
    /// A string.
    Text(Seq<char>),
    /// An array, element models in order.
    Array(Seq<JsonModel>),
    /// An object, member models by key.
    Object(Map<Seq<char>, JsonModel>),
    /// Anything else.
    Other,
}

/// What parsing a text as JSON gives: the model of the document the
/// parser accepts for the text, or nothing where it rejects the text.
pub uninterp spec fn json_of(s: Seq<char>) -> Option<JsonModel>;

/// The model of a parsed JSON value.
pub uninterp spec fn json_model(v: serde_json::Value) -> JsonModel;

/// The keys of a JSON object, in the deterministic (sorted) order the
/// map yields them.
pub uninterp spec fn json_map_keys(m: serde_json::Map<String, serde_json::Value>) -> Seq<
    Seq<char>,
>;

/// The member of an object under a key.
pub open spec fn jget(j: JsonModel, key: Seq<char>) -> Option<JsonModel> {
    match j {
        JsonModel::Object(m) => if m.contains_key(key) {
            Some(m[key])
        } else {
            None
        },
        _ => None,
    }
}

/// The characters of a string value.
pub open spec fn jtext(j: JsonModel) -> Option<Seq<char>> {
    match j {
        JsonModel::Text(s) => Some(s),
        _ => None,
    }
}

/// The unsigned reading of a number value.
pub open spec fn juint(j: JsonModel) -> Option<u64> {
    match j {
        JsonModel::UInt(n) => Some(n),
        _ => None,
    }
}

/// The elements of an array value.
pub open spec fn jarray(j: JsonModel) -> Option<Seq<JsonModel>> {
    match j {
        JsonModel::Array(elems) => Some(elems),
        _ => None,
    }
}

/// The string under an object key: `None` when the key is absent or the
/// member is no string.
pub open spec fn jfield_text(j: JsonModel, key: Seq<char>) -> Option<Seq<char>> {
    match jget(j, key) {
        Some(f) => jtext(f),
        None => None,
    }
}

/// A key list names an object's keys: every listed key is a member key,
/// and every member key is listed.
pub open spec fn keys_match(ks: Seq<Seq<char>>, om: Map<Seq<char>, JsonModel>) -> bool {
    &&& forall|i: int| 0 <= i < ks.len() ==> om.contains_key(#[trigger] ks[i])
    &&& forall|k: Seq<char>| om.contains_key(k) ==> ks.contains(k)
}

/// Relies on `serde_json::from_str`: parsing is deterministic, a
/// function of the text alone — it yields the text's document, or
/// rejects the text (not JSON, or beyond the parser's nesting limit).
#[verifier::external_body]
fn json_parse(s: &str) -> (r: Option<serde_json::Value>)
    ensures
        match r {
            Some(v) => json_of(s@) == Some(json_model(v)),
            None => json_of(s@) is None,
        },
{
    serde_json::from_str::<serde_json::Value>(s).ok()
}

/// Relies on `serde_json::Value::get`: the member under the key when
/// the value is an object that has it, `None` otherwise.
#[verifier::external_body]
fn json_get<'a>(v: &'a serde_json::Value, key: &str) -> (r: Option<&'a serde_json::Value>)
    ensures
        match r {
            Some(f) => jget(json_model(*v), key@) == Some(json_model(*f)),
            None => jget(json_model(*v), key@) is None,
        },
{
    v.get(key)
}

/// Relies on `serde_json::Value::as_str`: the string content exactly
/// when the value is a string.
#[verifier::external_body]
fn json_as_str<'a>(v: &'a serde_json::Value) -> (r: Option<&'a str>)
    ensures
        match r {
            Some(s) => jtext(json_model(*v)) == Some(s@),
            None => jtext(json_model(*v)) is None,
        },
{
    v.as_str()
}

/// Relies on `serde_json::Value::as_u64`: the number's unsigned 64-bit
/// reading exactly when it has one.
#[verifier::external_body]
fn json_as_u64(v: &serde_json::Value) -> (r: Option<u64>)
    ensures
        match r {
            Some(n) => juint(json_model(*v)) == Some(n),
            None => juint(json_model(*v)) is None,
        },
{
    v.as_u64()
}

/// Relies on `serde_json::Value::as_array`: the elements exactly when
/// the value is an array, each element carrying its own model.
#[verifier::external_body]
fn json_as_array<'a>(v: &'a serde_json::Value) -> (r: Option<&'a Vec<serde_json::Value>>)
    ensures
        match r {
            Some(a) => jarray(json_model(*v)) matches Some(elems) && elems.len() == a@.len()
                && forall|i: int| 0 <= i < a@.len() ==> elems[i] == json_model(#[trigger] a@[i]),
            None => jarray(json_model(*v)) is None,
        },
{
    v.as_array()
}

/// Relies on `serde_json::Value::as_object`: the member map exactly
/// when the value is an object; its key list names the model's keys.
#[verifier::external_body]
fn json_as_object<'a>(v: &'a serde_json::Value) -> (r: Option<
    &'a serde_json::Map<String, serde_json::Value>,
>)
    ensures
        match r {
            Some(m) => json_model(*v) matches JsonModel::Object(om) && keys_match(
                json_map_keys(*m),
                om,
            ),
            None => !(json_model(*v) is Object),
        },
{
    v.as_object()
}

/// Relies on `serde_json::Map::keys`: it yields the object's keys, in
/// the map's deterministic order.
#[verifier::external_body]
fn json_object_keys(m: &serde_json::Map<String, serde_json::Value>) -> (r: Vec<String>)
    ensures
        r.deep_view() == json_map_keys(*m),
{
    m.keys().cloned().collect()
}

/// Relies on `str::eq` of std: string slices compare equal exactly when
/// their characters do.
pub assume_specification[ <str as PartialEq>::eq ](s: &str, other: &str) -> (res: bool)
    ensures
        res == (s@ == other@),
;

/// An ASCII decimal digit.
pub open spec fn is_digit(b: u8) -> bool {
    48 <= b <= 57
}

/// The number named by a string of decimal digits, most significant
/// first.
pub open spec fn digits_val(bs: Seq<u8>) -> int
    decreases bs.len(),
{
    if bs.len() == 0 {
        0
    } else {
        digits_val(bs.drop_last()) * 10 + (bs.last() - 48)
    }
}

/// What parsing a byte string as a 32-bit number gives: the digits'
/// value when the string is all digits, at least one, and the value
/// fits; nothing otherwise.
pub open spec fn spec_parse_u32(bs: Seq<u8>) -> Option<u32> {
    if bs.len() > 0 && (forall|i: int| 0 <= i < bs.len() ==> is_digit(#[trigger] bs[i]))
        && 0 <= digits_val(bs) <= u32::MAX {
        Some(digits_val(bs) as u32)
    } else {
        None
    }
}

/// A string of digits names a number that is not negative.
proof fn lemma_digits_val_nonneg(bs: Seq<u8>)
    requires
        forall|j: int| 0 <= j < bs.len() ==> is_digit(#[trigger] bs[j]),
    ensures
        digits_val(bs) >= 0,
    decreases bs.len(),
{
    if bs.len() > 0 {
        lemma_digits_val_nonneg(bs.drop_last());
    }
}

/// A longer digit string names at least as large a number.
proof fn lemma_digits_val_monotone(bs: Seq<u8>, i: int)
    requires
        0 <= i <= bs.len(),
        forall|j: int| 0 <= j < bs.len() ==> is_digit(#[trigger] bs[j]),
    ensures
        digits_val(bs.take(i)) <= digits_val(bs),
    decreases bs.len() - i,
{
    if i < bs.len() {
        lemma_digits_val_monotone(bs, i + 1);
        assert(bs.take(i + 1).drop_last() =~= bs.take(i));
        assert(forall|j: int|
            0 <= j < bs.take(i).len() ==> is_digit(#[trigger] bs.take(i)[j]));
        lemma_digits_val_nonneg(bs.take(i));
        assert(digits_val(bs.take(i + 1)) == digits_val(bs.take(i)) * 10 + (bs.take(i + 1).last()
            - 48));
    } else {
        assert(bs.take(i) =~= bs);
    }
}

/// Parse a string as a 32-bit decimal number: digits only, no sign, no
/// leading or trailing noise, value within range.
pub fn parse_u32(s: &str) -> (r: Option<u32>)
    ensures
        r == spec_parse_u32(vstd::utf8::encode_utf8(s@)),
{
    let bytes = s.as_bytes();
    let ghost bs = vstd::utf8::encode_utf8(s@);
    if bytes.len() == 0 {
        return None;
    }
    let mut acc: u32 = 0;
    let mut i: usize = 0;
    while i < bytes.len()
        invariant
            0 < bytes@.len(),
            i <= bytes@.len(),
            bytes@ == bs,
            bs == vstd::utf8::encode_utf8(s@),
            forall|j: int| 0 <= j < i ==> is_digit(#[trigger] bs[j]),
            acc == digits_val(bs.take(i as int)),
        decreases bytes@.len() - i,
    {
        let b = *vstd::slice::slice_index_get(bytes, i);
        if b < 48 || b > 57 {
            return None;
        }
        let d: u32 = (b - 48) as u32;
        if acc > (u32::MAX - d) / 10 {
            proof {
                assert(bs.take(i as int + 1).drop_last() =~= bs.take(i as int));
                assert(digits_val(bs.take(i as int + 1)) == acc * 10 + d);
                assert(digits_val(bs.take(i as int + 1)) > u32::MAX);
                if forall|j: int| 0 <= j < bs.len() ==> is_digit(#[trigger] bs[j]) {
                    lemma_digits_val_monotone(bs, i as int + 1);
                }
            }
            return None;
        }
        proof {
            assert(bs.take(i as int + 1).drop_last() =~= bs.take(i as int));
            assert(digits_val(bs.take(i as int + 1)) == acc * 10 + d);
        }
        acc = acc * 10 + d;
        i += 1;
    }
    proof {
        assert(bs.take(bs.len() as int) =~= bs);
    }
    Some(acc)
}

/// What parsing a byte string as a timestamp gives: exactly fourteen
/// digits, year month day hour minute second in order, naming a real
/// calendar date and time of day; nothing otherwise.
pub open spec fn spec_parse_datetime(bs: Seq<u8>) -> Option<OpendictDateTime> {
    if bs.len() == 14 && (forall|i: int| 0 <= i < bs.len() ==> is_digit(#[trigger] bs[i])) {
        let d = OpendictDateTime {
            year: ((bs[0] - 48) * 1000 + (bs[1] - 48) * 100 + (bs[2] - 48) * 10 + (bs[3]
                - 48)) as u16,
            month: ((bs[4] - 48) * 10 + (bs[5] - 48)) as u8,
            day: ((bs[6] - 48) * 10 + (bs[7] - 48)) as u8,
            hour: ((bs[8] - 48) * 10 + (bs[9] - 48)) as u8,
            minute: ((bs[10] - 48) * 10 + (bs[11] - 48)) as u8,
            second: ((bs[12] - 48) * 10 + (bs[13] - 48)) as u8,
        };
        if d.wf() {
            Some(d)
        } else {
            None
        }
    } else {
        None
    }
}

/// Whether a year is a Gregorian leap year.
fn leap_year(year: u16) -> (r: bool)
    ensures
        r == crate::data::is_leap_year(year as int),
{
    (year % 4 == 0 && year % 100 != 0) || year % 400 == 0
}

/// Days in a month of the proleptic Gregorian calendar.
fn month_days(year: u16, month: u8) -> (r: u8)
    ensures
        r as int == days_in_month(year as int, month as int),
{
    if month == 2 {
        if leap_year(year) {
            29
        } else {
            28
        }
    } else if month == 4 || month == 6 || month == 9 || month == 11 {
        30
    } else {
        31
    }
}

/// The value of the decimal digit at position `k`.
fn digit_at(bytes: &[u8], k: usize) -> (v: u8)
    requires
        k < bytes@.len(),
        is_digit(bytes@[k as int]),
    ensures
        v == bytes@[k as int] - 48,
{
    *vstd::slice::slice_index_get(bytes, k) - 48
}

/// Parse the remote build date, fourteen digits `yyyyMMddHHmmss`,
/// rejecting anything that does not name a real calendar date and time.
pub fn parse_datetime(s: &str) -> (r: Option<OpendictDateTime>)
    ensures
        r == spec_parse_datetime(vstd::utf8::encode_utf8(s@)),
{
    let bytes = s.as_bytes();
    let ghost bs = vstd::utf8::encode_utf8(s@);
    if bytes.len() != 14 {
        return None;
    }
    let mut i: usize = 0;
    while i < bytes.len()
        invariant
            i <= bytes@.len(),
            bytes@ == bs,
            bs == vstd::utf8::encode_utf8(s@),
            bs.len() == 14,
            forall|j: int| 0 <= j < i ==> is_digit(#[trigger] bs[j]),
        decreases bytes@.len() - i,
    {
        let b = *vstd::slice::slice_index_get(bytes, i);
        if b < 48 || b > 57 {
            return None;
        }
        i += 1;
    }
    let year: u16 = (digit_at(bytes, 0) as u16) * 1000 + (digit_at(bytes, 1) as u16) * 100 + (
    digit_at(bytes, 2) as u16) * 10 + (digit_at(bytes, 3) as u16);
    let month: u8 = digit_at(bytes, 4) * 10 + digit_at(bytes, 5);
    let day: u8 = digit_at(bytes, 6) * 10 + digit_at(bytes, 7);
    let hour: u8 = digit_at(bytes, 8) * 10 + digit_at(bytes, 9);
    let minute: u8 = digit_at(bytes, 10) * 10 + digit_at(bytes, 11);
    let second: u8 = digit_at(bytes, 12) * 10 + digit_at(bytes, 13);
    let dt = OpendictDateTime { year, month, day, hour, minute, second };
    if month < 1 || month > 12 {
        return None;
    }
    if day < 1 || day > month_days(year, month) {
        return None;
    }
    if hour >= 24 || minute >= 60 || second >= 60 {
        return None;
    }
    Some(dt)
}

/// The fixed set of fields a sense record may carry; anything else is
/// schema drift and rejected.
pub open spec fn spec_known_sense_key(s: Seq<char>) -> bool {
    ||| s == "syntacticAnnotation"@
    ||| s == "syntacticArgument"@
    ||| s == "cat"@
    ||| s == "definition"@
    ||| s == "link"@
    ||| s == "origin"@
    ||| s == "sense_no"@
    ||| s == "target_code"@
    ||| s == "type"@
    ||| s == "pos"@
}

/// Whether a sense field name belongs to the fixed schema.
pub fn is_known_sense_key(k: &str) -> (r: bool)
    ensures
        r == spec_known_sense_key(k@),
{
    k.eq("syntacticAnnotation") || k.eq("syntacticArgument") || k.eq("cat") || k.eq("definition")
        || k.eq("link") || k.eq("origin") || k.eq("sense_no") || k.eq("target_code") || k.eq(
        "type",
    ) || k.eq("pos")
}

/// What reading a 32-bit counter field gives: absent or no number is a
/// missing field; a number beyond 32 bits is a bad number.
pub open spec fn spec_field_u32(j: JsonModel, key: Seq<char>) -> Result<u32, DecodeError> {
    match jget(j, key) {
        None => Err(DecodeError::MissingField),
        Some(f) => match juint(f) {
            None => Err(DecodeError::BadNumber),
            Some(n) => if n > 0xFFFF_FFFFu64 {
                Err(DecodeError::BadNumber)
            } else {
                Ok(n as u32)
            },
        },
    }
}

/// What decoding one item's sense record gives, for an item whose word
/// is `word`: exactly one sense, no field outside the fixed schema, the
/// required strings present, the code a 32-bit decimal.
pub open spec fn spec_decode_sense(item: JsonModel, word: Seq<char>) -> Result<
    DataView,
    DecodeError,
> {
    match jget(item, "sense"@) {
        None => Err(DecodeError::MissingField),
        Some(senses) => match jarray(senses) {
            None => Err(DecodeError::MissingField),
            Some(arr) => if arr.len() != 1 {
                Err(DecodeError::SenseCount)
            } else {
                match arr[0] {
                    JsonModel::Object(om) => {
                        if exists|k: Seq<char>| om.contains_key(k) && !spec_known_sense_key(k) {
                            Err(DecodeError::UnknownKey)
                        } else {
                            match jfield_text(arr[0], "definition"@) {
                                None => Err(DecodeError::MissingField),
                                Some(definition) => match jfield_text(arr[0], "target_code"@) {
                                    None => Err(DecodeError::MissingField),
                                    Some(code_s) => match spec_parse_u32(
                                        vstd::utf8::encode_utf8(code_s),
                                    ) {
                                        None => Err(DecodeError::BadNumber),
                                        Some(code) => match jfield_text(arr[0], "type"@) {
                                            None => Err(DecodeError::MissingField),
                                            Some(kind) => match jfield_text(arr[0], "pos"@) {
                                                None => Err(DecodeError::MissingField),
                                                Some(pos) => Ok(
                                                    DataView {
                                                        syntactic_annotation: jfield_text(
                                                            arr[0],
                                                            "syntacticAnnotation"@,
                                                        ),
                                                        syntactic_argument: jfield_text(
                                                            arr[0],
                                                            "syntacticArgument"@,
                                                        ),
                                                        word,
                                                        definition,
                                                        code,
                                                        kind,
                                                        pos,
                                                        origin: jfield_text(arr[0], "origin"@),
                                                    },
                                                ),
                                            },
                                        },
                                    },
                                },
                            }
                        }
                    },
                    _ => Err(DecodeError::MissingField),
                }
            },
        },
    }
}

/// What decoding one item of the page gives: its word, then its single
/// sense.
pub open spec fn spec_decode_item(j: JsonModel) -> Result<DataView, DecodeError> {
    match jfield_text(j, "word"@) {
        None => Err(DecodeError::MissingField),
        Some(word) => spec_decode_sense(j, word),
    }
}

/// What decoding the page's item list gives: every item in order, or
/// the first item's error.
pub open spec fn spec_decode_items(elems: Seq<JsonModel>) -> Result<Seq<DataView>, DecodeError>
    decreases elems.len(),
{
    if elems.len() == 0 {
        Ok(Seq::empty())
    } else {
        match spec_decode_item(elems[0]) {
            Err(e) => Err(e),
            Ok(d) => match spec_decode_items(elems.skip(1)) {
                Ok(ds) => Ok(seq![d] + ds),
                Err(e) => Err(e),
            },
        }
    }
}

/// What decoding a whole response gives, from the parsed document (or
/// its absence): the channel's build date, totals and items, or the
/// first error in reading order.
pub open spec fn spec_string_to_result(parsed: Option<JsonModel>) -> Result<
    (ResultView, Seq<DataView>),
    DecodeError,
> {
    match parsed {
        None => Err(DecodeError::BadJson),
        Some(doc) => match jget(doc, "channel"@) {
            None => Err(DecodeError::MissingField),
            Some(channel) => match jfield_text(channel, "lastbuilddate"@) {
                None => Err(DecodeError::MissingField),
                Some(date_s) => match spec_parse_datetime(vstd::utf8::encode_utf8(date_s)) {
                    None => Err(DecodeError::BadDatetime),
                    Some(datetime) => match spec_field_u32(channel, "total"@) {
                        Err(e) => Err(e),
                        Ok(total) => match spec_field_u32(channel, "num"@) {
                            Err(e) => Err(e),
                            Ok(size) => match spec_field_u32(channel, "start"@) {
                                Err(e) => Err(e),
                                Ok(page) => match jget(channel, "item"@) {
                                    None => Err(DecodeError::MissingField),
                                    Some(itemsv) => match jarray(itemsv) {
                                        None => Err(DecodeError::MissingField),
                                        Some(elems) => match spec_decode_items(elems) {
                                            Err(e) => Err(e),
                                            Ok(dvs) => Ok(
                                                (
                                                    ResultView {
                                                        total,
                                                        size,
                                                        page,
                                                        data_index: dvs.map_values(
                                                            |d: DataView| d.code,
                                                        ),
                                                        datetime,
                                                    },
                                                    dvs,
                                                ),
                                            ),
                                        },
                                    },
                                },
                            },
                        },
                    },
                },
            },
        },
    }
}

/// The views of a list of entries, in order.
pub open spec fn decoded_views(items: Seq<OpendictData>) -> Seq<DataView> {
    items.map_values(|d: OpendictData| d@)
}

/// Reject a sense object that carries any field outside the fixed
/// schema.
fn check_sense_keys(sense: &serde_json::Value) -> (r: Result<(), DecodeError>)
    ensures
        match r {
            Ok(()) => json_model(*sense) matches JsonModel::Object(om) && (forall|k: Seq<char>|
                om.contains_key(k) ==> spec_known_sense_key(k)),
            Err(DecodeError::MissingField) => !(json_model(*sense) is Object),
            Err(DecodeError::UnknownKey) => json_model(*sense) matches JsonModel::Object(om) && (
            exists|k: Seq<char>| om.contains_key(k) && !spec_known_sense_key(k)),
            Err(_) => false,
        },
{
    let obj = match json_as_object(sense) {
        Some(m) => m,
        None => {
            return Err(DecodeError::MissingField);
        },
    };
    let keys = json_object_keys(obj);
    let mut i: usize = 0;
    while i < keys.len()
        invariant
            i <= keys@.len(),
            keys.deep_view().len() == keys@.len(),
            json_model(*sense) matches JsonModel::Object(om) && keys_match(keys.deep_view(), om),
            forall|j: int| 0 <= j < i ==> spec_known_sense_key(#[trigger] keys.deep_view()[j]),
        decreases keys@.len() - i,
    {
        proof {
            assert(keys.deep_view()[i as int] =~= keys@[i as int]@);
        }
        if !is_known_sense_key(keys[i].as_str()) {
            proof {
                let om = json_model(*sense)->Object_0;
                assert(om.contains_key(keys.deep_view()[i as int]));
            }
            return Err(DecodeError::UnknownKey);
        }
        i += 1;
    }
    proof {
        let om = json_model(*sense)->Object_0;
        let ks = keys.deep_view();
        assert forall|k: Seq<char>| om.contains_key(k) implies spec_known_sense_key(k) by {
            assert(ks.contains(k));
            let j = choose|j: int| 0 <= j < ks.len() && ks[j] == k;
            assert(spec_known_sense_key(ks[j]));
        }
    }
    Ok(())
}

/// The string under an object key, owned, or a missing-field error.
fn field_str(v: &serde_json::Value, key: &str) -> (r: Result<String, DecodeError>)
    ensures
        match r {
            Ok(s) => jfield_text(json_model(*v), key@) == Some(s@),
            Err(e) => e == DecodeError::MissingField && jfield_text(json_model(*v), key@)
                is None,
        },
{
    match json_get(v, key) {
        Some(f) => match json_as_str(f) {
            Some(s) => Ok(s.to_owned()),
            None => Err(DecodeError::MissingField),
        },
        None => Err(DecodeError::MissingField),
    }
}

/// The string under an object key, owned, or `None` when the field is
/// absent or not a string.
fn field_opt_str(v: &serde_json::Value, key: &str) -> (r: Option<String>)
    ensures
        match r {
            Some(s) => jfield_text(json_model(*v), key@) == Some(s@),
            None => jfield_text(json_model(*v), key@) is None,
        },
{
    match json_get(v, key) {
        Some(f) => match json_as_str(f) {
            Some(s) => Some(s.to_owned()),
            None => None,
        },
        None => None,
    }
}

/// The unsigned number under an object key, within 32 bits.
fn field_u32(v: &serde_json::Value, key: &str) -> (r: Result<u32, DecodeError>)
    ensures
        r == spec_field_u32(json_model(*v), key@),
{
    let f = match json_get(v, key) {
        Some(f) => f,
        None => {
            return Err(DecodeError::MissingField);
        },
    };
    let n = match json_as_u64(f) {
        Some(n) => n,
        None => {
            return Err(DecodeError::BadNumber);
        },
    };
    if n > 0xFFFF_FFFFu64 {
        return Err(DecodeError::BadNumber);
    }
    Ok(n as u32)
}

/// Decode one sense record into an entry, failing closed on schema
/// drift: the result is exactly what the sense model prescribes for the
/// item's model and the given word.
#[verifier::rlimit(100)]
#[verifier::spinoff_prover]
fn decode_sense(item: &serde_json::Value, word: String) -> (r: Result<OpendictData, DecodeError>)
    ensures
        match r {
            Ok(d) => spec_decode_sense(json_model(*item), word@) == Ok::<
                DataView,
                DecodeError,
            >(d@),
            Err(e) => spec_decode_sense(json_model(*item), word@) == Err::<
                DataView,
                DecodeError,
            >(e),
        },
{
    let ghost wv = word@;
    let senses = match json_get(item, "sense") {
        Some(f) => f,
        None => {
            return Err(DecodeError::MissingField);
        },
    };
    let sense_arr = match json_as_array(senses) {
        Some(a) => a,
        None => {
            return Err(DecodeError::MissingField);
        },
    };
    if sense_arr.len() != 1 {
        return Err(DecodeError::SenseCount);
    }
    let sense = &sense_arr[0];
    proof {
        let elems = jarray(json_model(*senses))->Some_0;
        assert(json_model(*sense) == elems[0]);
    }
    match check_sense_keys(sense) {
        Ok(()) => {},
        Err(e) => {
            return Err(e);
        },
    }
    let syntactic_annotation = field_opt_str(sense, "syntacticAnnotation");
    let syntactic_argument = field_opt_str(sense, "syntacticArgument");
    let definition = match field_str(sense, "definition") {
        Ok(s) => s,
        Err(e) => {
            return Err(e);
        },
    };
    let code_str = match field_str(sense, "target_code") {
        Ok(s) => s,
        Err(e) => {
            return Err(e);
        },
    };
    let code = match parse_u32(code_str.as_str()) {
        Some(c) => c,
        None => {
            return Err(DecodeError::BadNumber);
        },
    };
    let kind = match field_str(sense, "type") {
        Ok(s) => s,
        Err(e) => {
            return Err(e);
        },
    };
    let pos = match field_str(sense, "pos") {
        Ok(s) => s,
        Err(e) => {
            return Err(e);
        },
    };
    let origin = field_opt_str(sense, "origin");
    let d = OpendictData {
        syntactic_annotation,
        syntactic_argument,
        word,
        definition,
        code,
        kind,
        pos,
        origin,
    };
    proof {
        match spec_decode_sense(json_model(*item), wv) {
            Ok(dv) => {
                assert(dv =~= d@);
            },
            Err(_) => {
                assert(false);
            },
        }
    }
    Ok(d)
}

/// Decode the remote response body into one page result and its
/// entries.
///
/// The result is exactly what the response model prescribes for the
/// parsed text: on success, the page's counters are the channel's
/// `total`, `num` and `start`, the timestamp is the parsed build date
/// (a real calendar time), and the entry list carries the items in page
/// order, with the code list the entries' codes; on failure, the first
/// schema violation in reading order, fail-closed. Two calls on the
/// same text decide alike.
#[verifier::rlimit(100)]
#[verifier::spinoff_prover]
pub fn string_to_result(s: &str) -> (r: Result<(OpendictResult, Vec<OpendictData>), DecodeError>)
    ensures
        match r {
            Ok(page) => spec_string_to_result(json_of(s@)) == Ok::<
                (ResultView, Seq<DataView>),
                DecodeError,
            >((page.0@, decoded_views(page.1@))),
            Err(e) => spec_string_to_result(json_of(s@)) == Err::<
                (ResultView, Seq<DataView>),
                DecodeError,
            >(e),
        },
        r matches Ok(page) ==> {
            &&& page.0.data_index@.len() == page.1@.len()
            &&& forall|i: int|
                0 <= i < page.1@.len() ==> (#[trigger] page.1@[i]).code == page.0.data_index@[i]
            &&& page.0.datetime.wf()
        },
{
    let json = match json_parse(s) {
        Some(v) => v,
        None => {
            return Err(DecodeError::BadJson);
        },
    };
    let ghost doc = json_model(json);
    let channel = match json_get(&json, "channel") {
        Some(c) => c,
        None => {
            return Err(DecodeError::MissingField);
        },
    };
    let ghost chan = json_model(*channel);
    let datetime_str = match field_str(channel, "lastbuilddate") {
        Ok(s) => s,
        Err(e) => {
            return Err(e);
        },
    };
    let datetime = match parse_datetime(datetime_str.as_str()) {
        Some(d) => d,
        None => {
            return Err(DecodeError::BadDatetime);
        },
    };
    proof {
        assert(datetime.wf());
    }
    let total = match field_u32(channel, "total") {
        Ok(n) => n,
        Err(e) => {
            return Err(e);
        },
    };
    let size = match field_u32(channel, "num") {
        Ok(n) => n,
        Err(e) => {
            return Err(e);
        },
    };
    let page = match field_u32(channel, "start") {
        Ok(n) => n,
        Err(e) => {
            return Err(e);
        },
    };
    let item_arr = match json_get(channel, "item") {
        Some(f) => match json_as_array(f) {
            Some(a) => a,
            None => {
                return Err(DecodeError::MissingField);
            },
        },
        None => {
            return Err(DecodeError::MissingField);
        },
    };
    let ghost elems = jarray(jget(chan, "item"@)->Some_0)->Some_0;
    proof {
        assert(spec_string_to_result(json_of(s@)) == (match spec_decode_items(elems) {
            Ok(dvs) => Ok::<(ResultView, Seq<DataView>), DecodeError>(
                (
                    ResultView {
                        total,
                        size,
                        page,
                        data_index: dvs.map_values(|d: DataView| d.code),
                        datetime,
                    },
                    dvs,
                ),
            ),
            Err(e) => Err::<(ResultView, Seq<DataView>), DecodeError>(e),
        }));
    }
    let mut data_index: Vec<u32> = Vec::new();
    let mut items: Vec<OpendictData> = Vec::new();
    let mut i: usize = 0;
    proof {
        assert(elems.skip(0) =~= elems);
        match spec_decode_items(elems) {
            Ok(rest) => {
                assert(decoded_views(items@) + rest =~= rest);
            },
            Err(_) => {},
        }
    }
    while i < item_arr.len()
        invariant
            i <= item_arr@.len(),
            elems.len() == item_arr@.len(),
            forall|j: int|
                0 <= j < item_arr@.len() ==> elems[j] == json_model(#[trigger] item_arr@[j]),
            spec_string_to_result(json_of(s@)) == (match spec_decode_items(elems) {
                Ok(dvs) => Ok::<(ResultView, Seq<DataView>), DecodeError>(
                    (
                        ResultView {
                            total,
                            size,
                            page,
                            data_index: dvs.map_values(|d: DataView| d.code),
                            datetime,
                        },
                        dvs,
                    ),
                ),
                Err(e) => Err::<(ResultView, Seq<DataView>), DecodeError>(e),
            }),
            spec_decode_items(elems) == (match spec_decode_items(elems.skip(i as int)) {
                Ok(rest) => Ok::<Seq<DataView>, DecodeError>(decoded_views(items@) + rest),
                Err(e) => Err::<Seq<DataView>, DecodeError>(e),
            }),
            data_index@.len() == items@.len(),
            forall|j: int|
                0 <= j < items@.len() ==> (#[trigger] items@[j]).code == data_index@[j],
        decreases item_arr@.len() - i,
    {
        let ghost acc_before = items@;
        let item = &item_arr[i];
        proof {
            assert(json_model(*item) == elems[i as int]);
            assert(elems.skip(i as int)[0] == elems[i as int]);
            assert(elems.skip(i as int).skip(1) =~= elems.skip(i as int + 1));
        }
        let word = match field_str(item, "word") {
            Ok(s) => s,
            Err(e) => {
                proof {
                    assert(spec_decode_item(elems[i as int]) == Err::<DataView, DecodeError>(e));
                }
                return Err(e);
            },
        };
        let ghost wv = word@;
        let entry = match decode_sense(item, word) {
            Ok(d) => d,
            Err(e) => {
                proof {
                    assert(spec_decode_item(elems[i as int]) == Err::<DataView, DecodeError>(e));
                }
                return Err(e);
            },
        };
        proof {
            assert(spec_decode_item(elems[i as int]) == Ok::<DataView, DecodeError>(entry@));
        }
        data_index.push(entry.code);
        items.push(entry);
        i += 1;
        proof {
            assert(decoded_views(items@) =~= decoded_views(acc_before).push(entry@));
            match spec_decode_items(elems.skip(i as int)) {
                Ok(rest) => {
                    assert(decoded_views(acc_before) + (seq![entry@] + rest) =~= decoded_views(
                        items@,
                    ) + rest);
                },
                Err(_) => {},
            }
        }
    }
    proof {
        assert(elems.skip(i as int).len() == 0);
        assert(spec_decode_items(elems.skip(i as int)) == Ok::<Seq<DataView>, DecodeError>(
            Seq::empty(),
        ));
        assert(decoded_views(items@) + Seq::<DataView>::empty() =~= decoded_views(items@));
    }
    let result = OpendictResult { total, size, page, data_index, datetime };
    proof {
        assert(result@.data_index =~= decoded_views(items@).map_values(|d: DataView| d.code));
        assert(result@ =~= ResultView {
            total,
            size,
            page,
            data_index: decoded_views(items@).map_values(|d: DataView| d.code),
            datetime,
        });
    }
    Ok((result, items))
}

} // verus!
