//! Wikibase entities and their claims, read from the JSON form of snaks and statements.
use vstd::prelude::*;
use crate::ids::{Fid, Lid, Pid, Qid, Sid};
use crate::ids::consts::{DATE_OF_BIRTH, DATE_OF_DEATH, INSTANCE_OF};
use crate::json_value::{Json, JsonNumber, members, object_entries, or_null, opt_string, sub_prop};
use crate::text::{
    chars_of, float_literal, is_float_literal, parse_u16, parse_u16_spec, parse_u64,
    parse_u64_spec, second_piece, split_chars, split_spec, str_eq, sub_chars, utf8_len, views,
    find_chars, lemma_split_spec,
};
use crate::time::{UtcDateTime, parse_wb_time, wb_time_spec};
use crate::laws::{claim_item, is_instance_claim, lemma_instances_filter};

verus! {

/// Why a snak or one of its values could not be read.
#[derive(Debug, Clone, Copy, PartialEq, Eq, Structural)]
#[non_exhaustive]
pub enum EntityError {
    FloatParse,
    ExpectedString,
    ExpectedQidString,
    TimeEmpty,
    BadId,
    NoDateYear,
    NoDateMatched,
    DateAmbiguous,
    InvalidDatatype,
    UnknownDatatype,
    MissingHour,
    MissingMinute,
    MissingSecond,
    InvalidSnaktype,
}

/// The kind of a Wikibase entity.
#[derive(Debug, Copy, Clone, PartialEq, Eq, Hash, Structural)]
pub enum EntityType {
    Entity,
    Property,
    Lexeme,
}

/// A number of the Wikibase data model, as the JSON gave it: a JSON number, or a
/// string that reads as a floating-point number (`str::parse::<f64>` accepts it).
#[derive(Debug, Clone, PartialEq)]
pub enum WbNumber {
    Json(JsonNumber),
    Text(String),
}

impl WbNumber {
    /// A text number reads as a floating-point number.
    pub open spec fn wf(self) -> bool {
        match self {
            WbNumber::Json(_) => true,
            WbNumber::Text(s) => float_literal(s@),
        }
    }
}

/// Data relating to a claim value.
#[derive(Debug, Clone, PartialEq)]
pub enum ClaimValueData {
    CommonsMedia(String),
    GlobeCoordinate { lat: WbNumber, lon: WbNumber, precision: WbNumber, globe: Qid },
    Item(Qid),
    Property(Pid),
    Stringg(String),
    MonolingualText { text: String, lang: String },
    ExternalID(String),
    Quantity {
        amount: WbNumber,
        lower_bound: Option<WbNumber>,
        upper_bound: Option<WbNumber>,
        unit: Option<Qid>,
    },
    DateTime {
        date_time: UtcDateTime,
        /// 0 - billion years, 1 - 100 million years, 2 - 10 million years,
        /// 3 - 1 million years, 4 - 100k years, 5 - 10k years, 6 - 1000 years,
        /// 7 - 100 years, 8 - decade, 9 - year, 10 - month, 11 - day,
        /// 12 - hour (deprecated), 13 - minute (deprecated), 14 - second (deprecated)
        precision: WbNumber,
    },
    Url(String),
    MathExpr(String),
    GeoShape(String),
    MusicNotation(String),
    TabularData(String),
    Lexeme(Lid),
    Form(Fid),
    Sense(Sid),
    NoValue,
    UnknownValue,
}

impl Default for ClaimValueData {
    fn default() -> (r: Self)
        ensures
            r == ClaimValueData::NoValue,
    {
        ClaimValueData::NoValue
    }
}

/// A statement rank.
#[derive(Debug, Copy, Clone, Eq, PartialEq, PartialOrd, Ord, Structural)]
pub enum Rank {
    Deprecated,
    Normal,
    Preferred,
}

impl Default for Rank {
    fn default() -> (r: Self)
        ensures
            r == Rank::Normal,
    {
        Rank::Normal
    }
}

/// A group of claims that make up a single reference.
#[derive(Debug, Clone, PartialEq)]
pub struct ReferenceGroup {
    pub claims: Vec<(Pid, ClaimValueData)>,
}

/// A claim value.
#[derive(Debug, Clone, PartialEq)]
pub struct ClaimValue {
    pub data: ClaimValueData,
    pub rank: Rank,
    pub id: String,
    pub qualifiers: Vec<(Pid, ClaimValueData)>,
    pub references: Vec<ReferenceGroup>,
}

/// What a claim value holds: data, rank, id, qualifiers and the claims of each
/// reference group.
pub type ClaimValueView = (
    ClaimValueData,
    Rank,
    Seq<char>,
    Seq<(Pid, ClaimValueData)>,
    Seq<Seq<(Pid, ClaimValueData)>>,
);

/// The claims of each reference group.
pub open spec fn groups_view(groups: Seq<ReferenceGroup>) -> Seq<Seq<(Pid, ClaimValueData)>> {
    groups.map_values(|g: ReferenceGroup| g.claims@)
}

impl View for ClaimValue {
    type V = ClaimValueView;

    open spec fn view(&self) -> ClaimValueView {
        (self.data, self.rank, self.id@, self.qualifiers@, groups_view(self.references@))
    }
}

impl Default for ClaimValue {
    fn default() -> (r: Self)
        ensures
            r@ == (ClaimValueData::NoValue, Rank::Normal, Seq::<char>::empty(), Seq::<(Pid, ClaimValueData)>::empty(), Seq::<Seq<(Pid, ClaimValueData)>>::empty()),
    {
        let r = ClaimValue {
            data: ClaimValueData::NoValue,
            rank: Rank::Normal,
            id: String::new(),
            qualifiers: Vec::new(),
            references: Vec::new(),
        };
        assert(groups_view(r.references@) =~= Seq::<Seq<(Pid, ClaimValueData)>>::empty());
        r
    }
}

/// A Wikibase entity.
#[derive(Debug, Clone, PartialEq)]
pub struct Entity {
    pub claims: Vec<(Pid, ClaimValue)>,
    pub entity_type: EntityType,
}

// ---------------------------------------------------------------------------
// Values of snaks
// ---------------------------------------------------------------------------

/// `Ok(v)` as `Some(v)`, an error as `None`.
pub open spec fn ok_of<T>(r: Result<T, EntityError>) -> Option<T> {
    match r {
        Ok(v) => Some(v),
        Err(_) => None,
    }
}

/// The text before the number of an entity IRI.
pub open spec fn entity_iri_prefix() -> Seq<char> {
    "http://www.wikidata.org/entity/Q"@
}

/// What reading an entity IRI, such as `http://www.wikidata.org/entity/Q42`, gives:
/// the number that follows the first `http://www.wikidata.org/entity/Q` (up to any
/// further occurrence of it).
pub open spec fn qid_spec(j: Json) -> Result<Qid, EntityError> {
    match j {
        Json::Str(s) => match second_piece(s@, entity_iri_prefix()) {
            None => Err(EntityError::ExpectedQidString),
            Some(p) => match parse_u64_spec(p) {
                Some(n) => Ok(Qid(n)),
                None => Err(EntityError::FloatParse),
            },
        },
        _ => Err(EntityError::ExpectedString),
    }
}

/// Reads an entity IRI, such as `http://www.wikidata.org/entity/Q42`, as an item id.
pub fn try_get_as_qid(datavalue: &Json) -> (r: Result<Qid, EntityError>)
    ensures
        r == qid_spec(*datavalue),
{
    let s = match datavalue.as_string() {
        Some(s) => s,
        None => return Err(EntityError::ExpectedString),
    };
    let cs = chars_of(s.as_str());
    let prefix = chars_of("http://www.wikidata.org/entity/Q");
    let i = match find_chars(cs.as_slice(), prefix.as_slice(), 0) {
        Some(i) => i,
        None => return Err(EntityError::ExpectedQidString),
    };
    let n = cs.len();
    assert(i + prefix@.len() <= n);
    let start = i + prefix.len();
    let end = match find_chars(cs.as_slice(), prefix.as_slice(), start) {
        Some(j) => j,
        None => cs.len(),
    };
    let piece = sub_chars(cs.as_slice(), start, end);
    match parse_u64(piece.as_slice()) {
        Some(n) => Ok(Qid(n)),
        None => Err(EntityError::FloatParse),
    }
}

/// What reading a number gives: a JSON number as it is, a string where it reads as
/// a floating-point number.
pub open spec fn wb_number_spec(j: Json) -> Result<WbNumber, EntityError> {
    match j {
        Json::Number(n) => Ok(WbNumber::Json(n)),
        Json::Str(s) => if float_literal(s@) {
            Ok(WbNumber::Text(s))
        } else {
            Err(EntityError::FloatParse)
        },
        _ => Err(EntityError::ExpectedString),
    }
}

/// Reads a number, given either as a JSON number or as a string.
pub fn parse_wb_number(num: &Json) -> (r: Result<WbNumber, EntityError>)
    ensures
        r == wb_number_spec(*num),
        r matches Ok(n) ==> n.wf(),
{
    match num {
        Json::Number(n) => Ok(WbNumber::Json(*n)),
        Json::Str(s) => {
            let cs = chars_of(s.as_str());
            if is_float_literal(cs.as_slice()) {
                Ok(WbNumber::Text(s.clone()))
            } else {
                Err(EntityError::FloatParse)
            }
        },
        _ => Err(EntityError::ExpectedString),
    }
}

/// `parse_wb_number` on a value where `None` stands for `Null`.
fn wb_number_opt(num: Option<&Json>) -> (r: Result<WbNumber, EntityError>)
    ensures
        r == wb_number_spec(or_null(num)),
{
    match num {
        Some(j) => parse_wb_number(j),
        None => Err(EntityError::ExpectedString),
    }
}

/// The claim value of a string datavalue of the given datatype.
pub open spec fn string_data_spec(datatype: Seq<char>, s: String) -> Result<ClaimValueData, EntityError> {
    if datatype == "string"@ {
        Ok(ClaimValueData::Stringg(s))
    } else if datatype == "commonsMedia"@ {
        Ok(ClaimValueData::CommonsMedia(s))
    } else if datatype == "external-id"@ {
        Ok(ClaimValueData::ExternalID(s))
    } else if datatype == "math"@ {
        Ok(ClaimValueData::MathExpr(s))
    } else if datatype == "geo-shape"@ {
        Ok(ClaimValueData::GeoShape(s))
    } else if datatype == "musical-notation"@ {
        Ok(ClaimValueData::MusicNotation(s))
    } else if datatype == "tabular-data"@ {
        Ok(ClaimValueData::TabularData(s))
    } else if datatype == "url"@ {
        Ok(ClaimValueData::Url(s))
    } else {
        Err(EntityError::InvalidDatatype)
    }
}

fn string_data(datatype: &String, s: &String) -> (r: Result<ClaimValueData, EntityError>)
    ensures
        r == string_data_spec(datatype@, *s),
{
    let d = datatype.as_str();
    let s = s.clone();
    if str_eq(d, "string") {
        Ok(ClaimValueData::Stringg(s))
    } else if str_eq(d, "commonsMedia") {
        Ok(ClaimValueData::CommonsMedia(s))
    } else if str_eq(d, "external-id") {
        Ok(ClaimValueData::ExternalID(s))
    } else if str_eq(d, "math") {
        Ok(ClaimValueData::MathExpr(s))
    } else if str_eq(d, "geo-shape") {
        Ok(ClaimValueData::GeoShape(s))
    } else if str_eq(d, "musical-notation") {
        Ok(ClaimValueData::MusicNotation(s))
    } else if str_eq(d, "tabular-data") {
        Ok(ClaimValueData::TabularData(s))
    } else if str_eq(d, "url") {
        Ok(ClaimValueData::Url(s))
    } else {
        Err(EntityError::InvalidDatatype)
    }
}

/// What reading an entity id (`Q1`, `P2`, `L3`, `L3-F4`, `L3-S5`) gives; `None` where
/// it panics (an empty id, a number that does not read, nothing after the dash).
pub open spec fn entity_id_spec(id: Seq<char>) -> Option<Result<ClaimValueData, EntityError>> {
    if id.len() == 0 {
        None
    } else if id[0] == 'Q' {
        match parse_u64_spec(id.drop_first()) {
            Some(n) => Some(Ok(ClaimValueData::Item(Qid(n)))),
            None => None,
        }
    } else if id[0] == 'P' {
        match parse_u64_spec(id.drop_first()) {
            Some(n) => Some(Ok(ClaimValueData::Property(Pid(n)))),
            None => None,
        }
    } else if id[0] == 'L' {
        let parts = split_spec(id, '-');
        if parts.len() == 1 {
            match parse_u64_spec(id.drop_first()) {
                Some(n) => Some(Ok(ClaimValueData::Lexeme(Lid(n)))),
                None => None,
            }
        } else if parts.len() == 2 {
            if parts[1].len() == 0 {
                None
            } else if parts[1][0] == 'F' || parts[1][0] == 'S' {
                match (parse_u64_spec(parts[0].drop_first()), parse_u16_spec(parts[1].drop_first())) {
                    (Some(l), Some(n)) => if parts[1][0] == 'F' {
                        Some(Ok(ClaimValueData::Form(Fid(Lid(l), n))))
                    } else {
                        Some(Ok(ClaimValueData::Sense(Sid(Lid(l), n))))
                    },
                    _ => None,
                }
            } else {
                Some(Err(EntityError::BadId))
            }
        } else {
            Some(Err(EntityError::BadId))
        }
    } else {
        Some(Err(EntityError::BadId))
    }
}

/// The first piece of a split starts as the text does, where that does not start
/// with the separator.
proof fn lemma_split_first(s: Seq<char>, c: char)
    requires
        s.len() >= 1,
        s[0] != c,
    ensures
        split_spec(s, c)[0].len() >= 1,
        split_spec(s, c)[0][0] == s[0],
    decreases s.len(),
{
    lemma_split_spec(s, c);
    if s.len() == 1 {
        assert(s.drop_last() =~= Seq::<char>::empty());
    } else {
        lemma_split_first(s.drop_last(), c);
        lemma_split_spec(s.drop_last(), c);
    }
}

/// The number after the first character of `s`, where there is one.
fn number_after_first(s: &Vec<char>) -> (r: Option<u64>)
    requires
        s@.len() >= 1,
    ensures
        r == parse_u64_spec(s@.drop_first()),
{
    let tail = sub_chars(s.as_slice(), 1, s.len());
    assert(tail@ =~= s@.drop_first());
    parse_u64(tail.as_slice())
}

fn parse_entity_id(id: &String) -> (r: Result<ClaimValueData, EntityError>)
    requires
        entity_id_spec(id@) is Some,
    ensures
        r == entity_id_spec(id@)->0,
{
    let cs = chars_of(id.as_str());
    let first = cs[0];
    if first == 'Q' {
        Ok(ClaimValueData::Item(Qid(number_after_first(&cs).expect("Malformed entity ID"))))
    } else if first == 'P' {
        Ok(ClaimValueData::Property(Pid(number_after_first(&cs).expect("Malformed property ID"))))
    } else if first == 'L' {
        let parts = split_chars(cs.as_slice(), '-');
        if parts.len() == 1 {
            Ok(ClaimValueData::Lexeme(Lid(number_after_first(&cs).expect("Malformed lexeme ID"))))
        } else if parts.len() == 2 {
            proof {
                lemma_split_first(cs@, '-');
                assert(views(parts@)[0] == parts@[0]@);
                assert(views(parts@)[1] == parts@[1]@);
            }
            let kind = parts[1][0];
            if kind == 'F' || kind == 'S' {
                let l = number_after_first(&parts[0]).expect("Malformed lexeme ID");
                let tail = sub_chars(parts[1].as_slice(), 1, parts[1].len());
                assert(tail@ =~= parts@[1]@.drop_first());
                let n = parse_u16(tail.as_slice()).expect("Invalid form or sense ID");
                if kind == 'F' {
                    Ok(ClaimValueData::Form(Fid(Lid(l), n)))
                } else {
                    Ok(ClaimValueData::Sense(Sid(Lid(l), n)))
                }
            } else {
                Err(EntityError::BadId)
            }
        } else {
            Err(EntityError::BadId)
        }
    } else {
        Err(EntityError::BadId)
    }
}

/// What reading the `value` of a datavalue of the given `type` gives; `None` where
/// it panics.
pub open spec fn datavalue_spec(datavalue: Json, datatype: Seq<char>) -> Option<Result<ClaimValueData, EntityError>> {
    match datavalue.prop("type"@).string() {
        None => None,
        Some(ty) => {
            let value = datavalue.prop("value"@);
            if ty@ == "string"@ {
                match value.string() {
                    None => None,
                    Some(s) => Some(string_data_spec(datatype, s)),
                }
            } else if ty@ == "wikibase-entityid"@ {
                match value.prop("id"@).string() {
                    None => Some(Err(EntityError::ExpectedString)),
                    Some(id) => entity_id_spec(id@),
                }
            } else if ty@ == "globecoordinate"@ {
                Some(
                    match wb_number_spec(value.prop("latitude"@)) {
                        Err(e) => Err(e),
                        Ok(lat) => match wb_number_spec(value.prop("longitude"@)) {
                            Err(e) => Err(e),
                            Ok(lon) => match wb_number_spec(value.prop("precision"@)) {
                                Err(e) => Err(e),
                                Ok(precision) => match qid_spec(value.prop("globe"@)) {
                                    Err(e) => Err(e),
                                    Ok(globe) => Ok(
                                        ClaimValueData::GlobeCoordinate { lat, lon, precision, globe },
                                    ),
                                },
                            },
                        },
                    },
                )
            } else if ty@ == "quantity"@ {
                Some(
                    match wb_number_spec(value.prop("amount"@)) {
                        Err(e) => Err(e),
                        Ok(amount) => Ok(
                            ClaimValueData::Quantity {
                                amount,
                                lower_bound: ok_of(wb_number_spec(value.prop("lowerBound"@))),
                                upper_bound: ok_of(wb_number_spec(value.prop("upperBound"@))),
                                unit: ok_of(qid_spec(value.prop("unit"@))),
                            },
                        ),
                    },
                )
            } else if ty@ == "time"@ {
                match value.prop("time"@).string() {
                    None => Some(Err(EntityError::ExpectedString)),
                    Some(t) => match wb_time_spec(t@) {
                        None => None,
                        Some(Err(e)) => Some(Err(e)),
                        Some(Ok(date_time)) => match wb_number_spec(value.prop("precision"@)) {
                            Err(_) => None,
                            Ok(precision) => Some(Ok(ClaimValueData::DateTime { date_time, precision })),
                        },
                    },
                }
            } else if ty@ == "monolingualtext"@ {
                Some(
                    match value.prop("text"@).string() {
                        None => Err(EntityError::ExpectedString),
                        Some(text) => match value.prop("language"@).string() {
                            None => Err(EntityError::ExpectedString),
                            Some(lang) => Ok(ClaimValueData::MonolingualText { text, lang }),
                        },
                    },
                )
            } else {
                Some(Err(EntityError::UnknownDatatype))
            }
        },
    }
}

/// What reading a snak gives; `None` where it panics.
///
/// A snak of type `somevalue` is an unknown value, one of type `novalue` no value;
/// one of type `value` is read from its datavalue and datatype.
pub open spec fn snak_spec(snak: Json) -> Option<Result<ClaimValueData, EntityError>> {
    match snak.prop("datatype"@).string() {
        None => Some(Err(EntityError::ExpectedString)),
        Some(datatype) => match snak.prop("snaktype"@).string() {
            None => Some(Err(EntityError::ExpectedString)),
            Some(snaktype) => if snaktype@ == "value"@ {
                datavalue_spec(snak.prop("datavalue"@), datatype@)
            } else if snaktype@ == "somevalue"@ {
                Some(Ok(ClaimValueData::UnknownValue))
            } else if snaktype@ == "novalue"@ {
                Some(Ok(ClaimValueData::NoValue))
            } else {
                Some(Err(EntityError::InvalidSnaktype))
            },
        },
    }
}

fn parse_datavalue(datavalue: Option<&Json>, datatype: &String) -> (r: Result<ClaimValueData, EntityError>)
    requires
        datavalue_spec(or_null(datavalue), datatype@) is Some,
    ensures
        r == datavalue_spec(or_null(datavalue), datatype@)->0,
{
    let type_str = opt_string(sub_prop(datavalue, "type")).expect(
        "Invalid datavalue type. Perhaps a new data type has been added?",
    );
    let value = sub_prop(datavalue, "value");
    let ty = type_str.as_str();
    if str_eq(ty, "string") {
        let s = opt_string(value).expect("expected string, didn't find one");
        string_data(datatype, s)
    } else if str_eq(ty, "wikibase-entityid") {
        // the ID could be a entity, lexeme, property, form, or sense
        let id = match opt_string(sub_prop(value, "id")) {
            Some(id) => id,
            None => return Err(EntityError::ExpectedString),
        };
        parse_entity_id(id)
    } else if str_eq(ty, "globecoordinate") {
        let lat = match wb_number_opt(sub_prop(value, "latitude")) {
            Ok(x) => x,
            Err(e) => return Err(e),
        };
        let lon = match wb_number_opt(sub_prop(value, "longitude")) {
            Ok(x) => x,
            Err(e) => return Err(e),
        };
        // the altitude field is deprecated and ignored
        let precision = match wb_number_opt(sub_prop(value, "precision")) {
            Ok(x) => x,
            Err(e) => return Err(e),
        };
        let globe = match try_get_as_qid_opt(sub_prop(value, "globe")) {
            Ok(x) => x,
            Err(e) => return Err(e),
        };
        Ok(ClaimValueData::GlobeCoordinate { lat, lon, precision, globe })
    } else if str_eq(ty, "quantity") {
        let amount = match wb_number_opt(sub_prop(value, "amount")) {
            Ok(x) => x,
            Err(e) => return Err(e),
        };
        let upper_bound = wb_number_opt(sub_prop(value, "upperBound")).ok();
        let lower_bound = wb_number_opt(sub_prop(value, "lowerBound")).ok();
        let unit = try_get_as_qid_opt(sub_prop(value, "unit")).ok();
        Ok(ClaimValueData::Quantity { amount, lower_bound, upper_bound, unit })
    } else if str_eq(ty, "time") {
        let t = match opt_string(sub_prop(value, "time")) {
            Some(t) => t,
            None => return Err(EntityError::ExpectedString),
        };
        let date_time = match parse_wb_time(t.as_str()) {
            Ok(x) => x,
            Err(e) => return Err(e),
        };
        let precision = wb_number_opt(sub_prop(value, "precision")).ok().expect(
            "Invalid precision",
        );
        Ok(ClaimValueData::DateTime { date_time, precision })
    } else if str_eq(ty, "monolingualtext") {
        let text = match opt_string(sub_prop(value, "text")) {
            Some(s) => s.clone(),
            None => return Err(EntityError::ExpectedString),
        };
        let lang = match opt_string(sub_prop(value, "language")) {
            Some(s) => s.clone(),
            None => return Err(EntityError::ExpectedString),
        };
        Ok(ClaimValueData::MonolingualText { text, lang })
    } else {
        Err(EntityError::UnknownDatatype)
    }
}

/// `try_get_as_qid` on a value where `None` stands for `Null`.
fn try_get_as_qid_opt(j: Option<&Json>) -> (r: Result<Qid, EntityError>)
    ensures
        r == qid_spec(or_null(j)),
{
    match j {
        Some(v) => try_get_as_qid(v),
        None => Err(EntityError::ExpectedString),
    }
}

/// Reads a snak given by reference.
fn parse_snak_ref(snak: &Json) -> (r: Result<ClaimValueData, EntityError>)
    requires
        snak_spec(*snak) is Some,
    ensures
        r == snak_spec(*snak)->0,
{
    let datavalue = snak.get_prop("datavalue");
    let datatype = match opt_string(snak.get_prop("datatype")) {
        Some(s) => s,
        None => return Err(EntityError::ExpectedString),
    };
    let snaktype = match opt_string(snak.get_prop("snaktype")) {
        Some(s) => s,
        None => return Err(EntityError::ExpectedString),
    };
    let st = snaktype.as_str();
    if str_eq(st, "value") {
        parse_datavalue(datavalue, datatype)
    } else if str_eq(st, "somevalue") {
        Ok(ClaimValueData::UnknownValue)
    } else if str_eq(st, "novalue") {
        Ok(ClaimValueData::NoValue)
    } else {
        Err(EntityError::InvalidSnaktype)
    }
}

impl ClaimValueData {
    /// Parses a snak.
    pub fn parse_snak(snak: Json) -> (r: Result<Self, EntityError>)
        requires
            snak_spec(snak) is Some,
        ensures
            r == snak_spec(snak)->0,
    {
        parse_snak_ref(&snak)
    }
}

// ---------------------------------------------------------------------------
// Statements: rank, main snak, references, qualifiers
// ---------------------------------------------------------------------------

/// The property that an object key such as `P31` names; `None` where reading it
/// panics (an empty key, a key whose first character is not one byte long, a
/// number that does not read).
pub open spec fn pid_key_spec(key: Seq<char>) -> Option<Pid> {
    if key.len() == 0 || utf8_len(key[0]) != 1 {
        None
    } else {
        match parse_u64_spec(key.drop_first()) {
            Some(n) => Some(Pid(n)),
            None => None,
        }
    }
}

/// The claims that the snaks of property `pid` give, in order; snaks that do not
/// read are left out. `None` where reading panics.
pub open spec fn snak_claims(pid: Seq<char>, snaks: Seq<Json>) -> Option<Seq<(Pid, ClaimValueData)>>
    decreases snaks.len(),
{
    if snaks.len() == 0 {
        Some(Seq::empty())
    } else {
        match snak_claims(pid, snaks.drop_last()) {
            None => None,
            Some(prev) => match snak_spec(snaks.last()) {
                None => None,
                Some(Err(_)) => Some(prev),
                Some(Ok(x)) => match pid_key_spec(pid) {
                    None => None,
                    Some(p) => Some(prev.push((p, x))),
                },
            },
        }
    }
}

/// The claims of a reference group's `snaks` object: for each property in order,
/// the claims of its snaks. `None` where reading panics.
pub open spec fn entry_claims(entries: Seq<(String, Json)>) -> Option<Seq<(Pid, ClaimValueData)>>
    decreases entries.len(),
{
    if entries.len() == 0 {
        Some(Seq::empty())
    } else {
        match entry_claims(entries.drop_last()) {
            None => None,
            Some(prev) => match snak_claims(entries.last().0@, members(entries.last().1)) {
                None => None,
                Some(v) => Some(prev + v),
            },
        }
    }
}

/// The claims of a reference group.
pub open spec fn group_claims(group: Json) -> Option<Seq<(Pid, ClaimValueData)>> {
    entry_claims(object_entries(group.prop("snaks"@)))
}

/// The claims of each reference group, in order. `None` where reading panics.
pub open spec fn reference_groups(groups: Seq<Json>) -> Option<Seq<Seq<(Pid, ClaimValueData)>>>
    decreases groups.len(),
{
    if groups.len() == 0 {
        Some(Seq::empty())
    } else {
        match reference_groups(groups.drop_last()) {
            None => None,
            Some(prev) => match group_claims(groups.last()) {
                None => None,
                Some(g) => Some(prev.push(g)),
            },
        }
    }
}

/// The references of a statement: none unless `references` is an array.
pub open spec fn references_spec(refs: Json) -> Option<Seq<Seq<(Pid, ClaimValueData)>>> {
    match refs {
        Json::Array(groups) => reference_groups(groups@),
        _ => Some(Seq::empty()),
    }
}

/// The qualifiers of a statement's `qualifiers` object: `Some(None)` where a
/// property holds something other than an array (the statement is then dropped),
/// `None` where reading panics first.
pub open spec fn qualifier_entries(entries: Seq<(String, Json)>) -> Option<Option<Seq<(Pid, ClaimValueData)>>>
    decreases entries.len(),
{
    if entries.len() == 0 {
        Some(Some(Seq::empty()))
    } else {
        match qualifier_entries(entries.drop_last()) {
            None => None,
            Some(None) => Some(None),
            Some(Some(prev)) => match entries.last().1 {
                Json::Array(snaks) => match snak_claims(entries.last().0@, snaks@) {
                    None => None,
                    Some(v) => Some(Some(prev + v)),
                },
                _ => Some(None),
            },
        }
    }
}

/// The qualifiers of a statement: none unless `qualifiers` is an object.
pub open spec fn qualifiers_spec(q: Json) -> Option<Option<Seq<(Pid, ClaimValueData)>>> {
    match q {
        Json::Object(entries) => qualifier_entries(entries@),
        _ => Some(Some(Seq::empty())),
    }
}

/// The rank that a rank string names; deprecated and unknown ranks give `None`.
pub open spec fn rank_spec(r: Seq<char>) -> Option<Rank> {
    if r == "deprecated"@ {
        None
    } else if r == "normal"@ {
        Some(Rank::Normal)
    } else if r == "preferred"@ {
        Some(Rank::Preferred)
    } else {
        None
    }
}

/// What reading a statement gives: `None` where it panics, `Some(None)` where the
/// statement is dropped, else what the claim value holds.
///
/// A statement is dropped when its rank is deprecated or unknown, when its main snak
/// does not read, or when a qualifier property holds something other than an array.
/// Reference and qualifier snaks that do not read are left out. With `skip_id` the
/// id is left empty.
pub open spec fn claim_spec(claim: Json, skip_id: bool) -> Option<Option<ClaimValueView>> {
    match claim.prop("rank"@).string() {
        None => None,
        Some(rank_str) => match rank_spec(rank_str@) {
            None => Some(None),
            Some(rank) => match snak_spec(claim.prop("mainsnak"@)) {
                None => None,
                Some(Err(_)) => Some(None),
                Some(Ok(data)) => match references_spec(claim.prop("references"@)) {
                    None => None,
                    Some(refs) => match qualifiers_spec(claim.prop("qualifiers"@)) {
                        None => None,
                        Some(None) => Some(None),
                        Some(Some(quals)) => if skip_id {
                            Some(Some((data, rank, Seq::empty(), quals, refs)))
                        } else {
                            match claim.prop("id"@).string() {
                                None => None,
                                Some(id) => Some(Some((data, rank, id@, quals, refs))),
                            }
                        },
                    },
                },
            },
        },
    }
}

proof fn lemma_snak_claims_prefix(pid: Seq<char>, snaks: Seq<Json>, i: int)
    requires
        snak_claims(pid, snaks) is Some,
        0 <= i <= snaks.len(),
    ensures
        snak_claims(pid, snaks.take(i)) is Some,
    decreases snaks.len(),
{
    if i == snaks.len() {
        assert(snaks.take(i) =~= snaks);
    } else {
        assert(snaks.drop_last().take(i) =~= snaks.take(i));
        lemma_snak_claims_prefix(pid, snaks.drop_last(), i);
    }
}

proof fn lemma_entry_claims_prefix(entries: Seq<(String, Json)>, i: int)
    requires
        entry_claims(entries) is Some,
        0 <= i <= entries.len(),
    ensures
        entry_claims(entries.take(i)) is Some,
    decreases entries.len(),
{
    if i == entries.len() {
        assert(entries.take(i) =~= entries);
    } else {
        assert(entries.drop_last().take(i) =~= entries.take(i));
        lemma_entry_claims_prefix(entries.drop_last(), i);
    }
}

proof fn lemma_reference_groups_prefix(groups: Seq<Json>, i: int)
    requires
        reference_groups(groups) is Some,
        0 <= i <= groups.len(),
    ensures
        reference_groups(groups.take(i)) is Some,
    decreases groups.len(),
{
    if i == groups.len() {
        assert(groups.take(i) =~= groups);
    } else {
        assert(groups.drop_last().take(i) =~= groups.take(i));
        lemma_reference_groups_prefix(groups.drop_last(), i);
    }
}

/// A panic or a drop in a prefix of the qualifiers is what the whole gives.
proof fn lemma_qualifier_entries_prefix(entries: Seq<(String, Json)>, i: int)
    requires
        0 <= i <= entries.len(),
    ensures
        qualifier_entries(entries.take(i)) is None ==> qualifier_entries(entries) is None,
        qualifier_entries(entries.take(i)) == Some(None::<Seq<(Pid, ClaimValueData)>>)
            ==> qualifier_entries(entries) == Some(None::<Seq<(Pid, ClaimValueData)>>),
    decreases entries.len(),
{
    if i == entries.len() {
        assert(entries.take(i) =~= entries);
    } else {
        assert(entries.drop_last().take(i) =~= entries.take(i));
        lemma_qualifier_entries_prefix(entries.drop_last(), i);
    }
}

/// The property that an object key names.
fn pid_of_key(key: &String) -> (r: Pid)
    requires
        pid_key_spec(key@) is Some,
    ensures
        r == pid_key_spec(key@)->0,
{
    let cs = chars_of(key.as_str());
    Pid(number_after_first(&cs).expect("Invalid property ID"))
}

/// Appends the claims that the snaks of property `pid` give.
fn push_snak_claims(pid: &String, snaks: &Vec<Json>, out: &mut Vec<(Pid, ClaimValueData)>)
    requires
        snak_claims(pid@, snaks@) is Some,
    ensures
        final(out)@ == old(out)@ + snak_claims(pid@, snaks@)->0,
{
    let ghost start = out@;
    let mut i: usize = 0;
    assert(snaks@.take(0) =~= Seq::<Json>::empty());
    assert(out@ =~= start + Seq::<(Pid, ClaimValueData)>::empty());
    while i < snaks.len()
        invariant
            i <= snaks@.len(),
            snak_claims(pid@, snaks@) is Some,
            snak_claims(pid@, snaks@.take(i as int)) is Some,
            out@ == start + snak_claims(pid@, snaks@.take(i as int))->0,
        decreases snaks.len() - i,
    {
        proof {
            lemma_snak_claims_prefix(pid@, snaks@, i + 1);
            assert(snaks@.take(i + 1).drop_last() =~= snaks@.take(i as int));
            assert(snaks@.take(i + 1).last() == snaks@[i as int]);
        }
        match parse_snak_ref(&snaks[i]) {
            Ok(x) => {
                let p = pid_of_key(pid);
                out.push((p, x));
                assert(out@ =~= start + snak_claims(pid@, snaks@.take(i + 1))->0);
            },
            Err(_) => {},
        }
        i = i + 1;
    }
    assert(snaks@.take(i as int) =~= snaks@);
}

/// Appends the claims of a `snaks` object's entries.
fn push_entry_claims(entries: &Vec<(String, Json)>, out: &mut Vec<(Pid, ClaimValueData)>)
    requires
        entry_claims(entries@) is Some,
    ensures
        final(out)@ == old(out)@ + entry_claims(entries@)->0,
{
    let ghost start = out@;
    let mut i: usize = 0;
    assert(entries@.take(0) =~= Seq::<(String, Json)>::empty());
    assert(out@ =~= start + Seq::<(Pid, ClaimValueData)>::empty());
    while i < entries.len()
        invariant
            i <= entries@.len(),
            entry_claims(entries@) is Some,
            entry_claims(entries@.take(i as int)) is Some,
            out@ == start + entry_claims(entries@.take(i as int))->0,
        decreases entries.len() - i,
    {
        proof {
            lemma_entry_claims_prefix(entries@, i + 1);
            assert(entries@.take(i + 1).drop_last() =~= entries@.take(i as int));
            assert(entries@.take(i + 1).last() == entries@[i as int]);
        }
        let ghost before = out@;
        let (pid, snak_group) = &entries[i];
        match snak_group {
            Json::Array(snaks) => {
                push_snak_claims(pid, snaks, out);
            },
            _ => {
                assert(snak_claims(pid@, members(*snak_group)) == Some(Seq::<(Pid, ClaimValueData)>::empty()));
            },
        }
        assert(out@ =~= start + entry_claims(entries@.take(i + 1))->0);
        i = i + 1;
    }
    assert(entries@.take(i as int) =~= entries@);
}

/// The claims of one reference group.
fn read_reference_group(group: &Json) -> (r: ReferenceGroup)
    requires
        group_claims(*group) is Some,
    ensures
        r.claims@ == group_claims(*group)->0,
{
    let mut claims: Vec<(Pid, ClaimValueData)> = Vec::new();
    match group.get_prop("snaks") {
        Some(Json::Object(entries)) => {
            push_entry_claims(entries, &mut claims);
            assert(claims@ =~= group_claims(*group)->0);
        },
        _ => {
            assert(claims@ =~= group_claims(*group)->0);
        },
    }
    ReferenceGroup { claims }
}

/// The reference groups of a statement.
fn read_references(refs: Option<&Json>) -> (r: Vec<ReferenceGroup>)
    requires
        references_spec(or_null(refs)) is Some,
    ensures
        groups_view(r@) == references_spec(or_null(refs))->0,
{
    let mut v: Vec<ReferenceGroup> = Vec::new();
    match refs {
        Some(Json::Array(groups)) => {
            let mut i: usize = 0;
            assert(groups@.take(0) =~= Seq::<Json>::empty());
            assert(groups_view(v@) =~= Seq::<Seq<(Pid, ClaimValueData)>>::empty());
            while i < groups.len()
                invariant
                    i <= groups@.len(),
                    reference_groups(groups@) is Some,
                    reference_groups(groups@.take(i as int)) is Some,
                    groups_view(v@) == reference_groups(groups@.take(i as int))->0,
                decreases groups.len() - i,
            {
                proof {
                    lemma_reference_groups_prefix(groups@, i + 1);
                    assert(groups@.take(i + 1).drop_last() =~= groups@.take(i as int));
                    assert(groups@.take(i + 1).last() == groups@[i as int]);
                }
                let g = read_reference_group(&groups[i]);
                v.push(g);
                assert(groups_view(v@) =~= reference_groups(groups@.take(i + 1))->0);
                i = i + 1;
            }
            assert(groups@.take(i as int) =~= groups@);
        },
        _ => {
            assert(groups_view(v@) =~= Seq::<Seq<(Pid, ClaimValueData)>>::empty());
        },
    }
    v
}

/// The qualifiers of a statement, or `None` where the statement is dropped.
fn read_qualifiers(q: Option<&Json>) -> (r: Option<Vec<(Pid, ClaimValueData)>>)
    requires
        qualifiers_spec(or_null(q)) is Some,
    ensures
        qualifiers_spec(or_null(q)) == Some(
            match r {
                Some(v) => Some(v@),
                None => None,
            },
        ),
{
    let mut v: Vec<(Pid, ClaimValueData)> = Vec::new();
    match q {
        Some(Json::Object(entries)) => {
            let mut i: usize = 0;
            assert(entries@.take(0) =~= Seq::<(String, Json)>::empty());
            assert(v@ =~= Seq::<(Pid, ClaimValueData)>::empty());
            while i < entries.len()
                invariant
                    i <= entries@.len(),
                    qualifier_entries(entries@) is Some,
                    qualifiers_spec(or_null(q)) == qualifier_entries(entries@),
                    qualifier_entries(entries@.take(i as int)) == Some(Some(v@)),
                decreases entries.len() - i,
            {
                proof {
                    lemma_qualifier_entries_prefix(entries@, i + 1);
                    assert(entries@.take(i + 1).drop_last() =~= entries@.take(i as int));
                    assert(entries@.take(i + 1).last() == entries@[i as int]);
                }
                let (pid, claim_array) = &entries[i];
                match claim_array {
                    Json::Array(snaks) => {
                        let ghost before = v@;
                        push_snak_claims(pid, snaks, &mut v);
                        assert(qualifier_entries(entries@.take(i + 1)) == Some(Some(v@)));
                    },
                    _ => {
                        assert(qualifier_entries(entries@.take(i + 1)) == Some(
                            None::<Seq<(Pid, ClaimValueData)>>,
                        ));
                        return None;
                    },
                }
                i = i + 1;
            }
            assert(entries@.take(i as int) =~= entries@);
            Some(v)
        },
        _ => Some(v),
    }
}

impl ClaimValue {
    /// Reads a statement: its rank, main snak, references, qualifiers and (unless
    /// `skip_id`) id. Returns `None` for a deprecated or unknown rank, for a main
    /// snak that does not read, and for a qualifier property that holds something
    /// other than an array.
    #[must_use]
    pub fn get_prop_from_snak(claim: Json, skip_id: bool) -> (r: Option<ClaimValue>)
        requires
            claim_spec(claim, skip_id) is Some,
        ensures
            claim_spec(claim, skip_id) == Some(
                match r {
                    Some(v) => Some(v@),
                    None => None,
                },
            ),
    {
        let claim_str = opt_string(claim.get_prop("rank")).expect("No rank");
        let c = claim_str.as_str();
        let rank = if str_eq(c, "deprecated") {
            return None;
        } else if str_eq(c, "normal") {
            Rank::Normal
        } else if str_eq(c, "preferred") {
            Rank::Preferred
        } else {
            return None;
        };
        let data = match parse_snak_ref_opt(claim.get_prop("mainsnak")) {
            Ok(x) => x,
            Err(_) => return None,
        };
        let references = read_references(claim.get_prop("references"));
        let qualifiers = match read_qualifiers(claim.get_prop("qualifiers")) {
            Some(q) => q,
            None => return None,
        };
        let id = if skip_id {
            String::new()
        } else {
            opt_string(claim.get_prop("id")).expect("No id on snak").clone()
        };
        Some(ClaimValue { rank, id, data, references, qualifiers })
    }
}

/// Reads a snak, where `None` stands for `Null`.
fn parse_snak_ref_opt(snak: Option<&Json>) -> (r: Result<ClaimValueData, EntityError>)
    requires
        snak_spec(or_null(snak)) is Some,
    ensures
        r == snak_spec(or_null(snak))->0,
{
    match snak {
        Some(s) => parse_snak_ref(s),
        None => {
            let null = Json::Null;
            parse_snak_ref(&null)
        },
    }
}

// ---------------------------------------------------------------------------
// Entities
// ---------------------------------------------------------------------------

/// The items that the `instance of` claims name, in the order of the claims; claims
/// of that property whose value is not an item are passed over.
pub open spec fn instances_spec(claims: Seq<(Pid, ClaimValue)>) -> Seq<Qid>
    decreases claims.len(),
{
    if claims.len() == 0 {
        Seq::empty()
    } else {
        let prev = instances_spec(claims.drop_last());
        let (pid, claim) = claims.last();
        match claim.data {
            ClaimValueData::Item(q) => if pid == Pid(INSTANCE_OF) {
                prev.push(q)
            } else {
                prev
            },
            _ => prev,
        }
    }
}

/// The date-time of the first claim of property `p` whose value is a date-time.
pub open spec fn first_date(claims: Seq<(Pid, ClaimValue)>, p: Pid) -> Option<UtcDateTime>
    decreases claims.len(),
{
    if claims.len() == 0 {
        None
    } else {
        match claims[0].1.data {
            ClaimValueData::DateTime { date_time, .. } => if claims[0].0 == p {
                Some(date_time)
            } else {
                first_date(claims.drop_first(), p)
            },
            _ => first_date(claims.drop_first(), p),
        }
    }
}

impl Entity {
    /// The items that this entity is an instance of (`P31`), in claim order.
    pub fn instances(&self) -> (r: Vec<Qid>)
        ensures
            r@ == instances_spec(self.claims@),
            r@ == self.claims@.filter(|c: (Pid, ClaimValue)| is_instance_claim(c)).map_values(
                |c: (Pid, ClaimValue)| claim_item(c),
            ),
    {
        proof {
            lemma_instances_filter(self.claims@);
        }
        let mut instances: Vec<Qid> = Vec::with_capacity(1);
        let mut i: usize = 0;
        assert(self.claims@.take(0) =~= Seq::<(Pid, ClaimValue)>::empty());
        while i < self.claims.len()
            invariant
                i <= self.claims@.len(),
                instances@ == instances_spec(self.claims@.take(i as int)),
            decreases self.claims.len() - i,
        {
            let ghost next = self.claims@.take(i + 1);
            assert(next.drop_last() =~= self.claims@.take(i as int));
            assert(next.last() == self.claims@[i as int]);
            let (pid, claim) = &self.claims[i];
            if *pid == Pid(INSTANCE_OF) {
                if let ClaimValueData::Item(qid) = &claim.data {
                    instances.push(*qid);
                }
            }
            i = i + 1;
        }
        assert(self.claims@.take(i as int) =~= self.claims@);
        instances
    }

    /// The date-time of the first claim of `pid` whose value is a date-time.
    fn first_date_of(&self, pid: Pid) -> (r: Option<UtcDateTime>)
        ensures
            r == first_date(self.claims@, pid),
    {
        let mut i: usize = 0;
        assert(self.claims@.skip(0) =~= self.claims@);
        while i < self.claims.len()
            invariant
                i <= self.claims@.len(),
                first_date(self.claims@, pid) == first_date(self.claims@.skip(i as int), pid),
            decreases self.claims.len() - i,
        {
            let ghost rest = self.claims@.skip(i as int);
            assert(rest[0] == self.claims@[i as int]);
            assert(rest.drop_first() =~= self.claims@.skip(i + 1));
            let (p, claim) = &self.claims[i];
            if *p == pid {
                if let ClaimValueData::DateTime { date_time, .. } = &claim.data {
                    return Some(*date_time);
                }
            }
            i = i + 1;
        }
        None
    }

    /// The date of birth: the first `P569` claim whose value is a date-time.
    pub fn start_time(&self) -> (r: Option<UtcDateTime>)
        ensures
            r == first_date(self.claims@, Pid(DATE_OF_BIRTH)),
    {
        self.first_date_of(Pid(DATE_OF_BIRTH))
    }

    /// The date of death: the first `P570` claim whose value is a date-time.
    pub fn end_time(&self) -> (r: Option<UtcDateTime>)
        ensures
            r == first_date(self.claims@, Pid(DATE_OF_DEATH)),
    {
        self.first_date_of(Pid(DATE_OF_DEATH))
    }
}

} // verus!
