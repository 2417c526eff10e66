use wikidata::entity::{
    parse_wb_number, try_get_as_qid, ClaimValue, ClaimValueData, Entity, EntityError, EntityType,
    Rank, ReferenceGroup, WbNumber,
};
use wikidata::ids::consts::{DATE_OF_BIRTH, DATE_OF_DEATH, INSTANCE_OF};
use wikidata::ids::{Fid, Lid, Pid, Qid, Sid};
use wikidata::json_value::{Json, JsonNumber};
use wikidata::time::{parse_wb_time, UtcDateTime};

fn s(x: &str) -> Json {
    Json::Str(x.to_string())
}

fn obj(entries: Vec<(&str, Json)>) -> Json {
    Json::Object(entries.into_iter().map(|(k, v)| (k.to_string(), v)).collect())
}

fn num(positive: bool, mantissa: u64, exponent: i16) -> Json {
    Json::Number(JsonNumber { positive, mantissa, exponent })
}

fn snak(datatype: &str, ty: &str, value: Json) -> Json {
    obj(vec![
        ("snaktype", s("value")),
        ("property", s("P1")),
        ("datatype", s(datatype)),
        ("datavalue", obj(vec![("value", value), ("type", s(ty))])),
    ])
}

fn dt(year: i32, month: u32, day: u32, hour: u32, minute: u32, second: u32) -> UtcDateTime {
    UtcDateTime { year, month, day, hour, minute, second }
}

#[test]
fn time_parsing() {
    let valid_times = vec![
        "+2001-12-31T00:00:00Z",
        "+12346-12-31T00:00:00Z",
        "+311-12-31T00:00:00Z",
        "+1979-00-00T00:00:00Z",
        "-1979-00-00T00:00:00Z",
        "+2001-12-31T00:00:00Z",
        "+2001-12-31",
        "+2001-12",
        "-12561",
        "+311-12-31T12:34:56Z",
        "+311-12-31T23:45:42Z",
        // below are times that *should* work, but chrono doesn't accept
        // "-410000000-00-00T00:00:00Z",
    ];
    for time in valid_times {
        println!("Trying \"{}\"", time);
        assert!(match parse_wb_time(time) {
            Ok(val) => {
                println!("Got {:#?}", val);
                true
            }
            Err(_) => false,
        });
    }
}

#[test]
fn as_qid_test() {
    let qid = try_get_as_qid(&s("http://www.wikidata.org/entity/Q1234567"));
    assert_eq!(qid, Ok(Qid(1234567)));
}

#[test]
fn time_values() {
    assert_eq!(parse_wb_time("+2001-12-31T12:34:56Z"), Ok(dt(2001, 12, 31, 12, 34, 56)));
    assert_eq!(parse_wb_time("-1979-00-00T00:00:00Z"), Ok(dt(-1979, 1, 1, 0, 0, 0)));
    assert_eq!(parse_wb_time("+2001-12"), Ok(dt(2001, 12, 1, 0, 0, 0)));
    assert_eq!(parse_wb_time("-12561"), Ok(dt(-12561, 1, 1, 0, 0, 0)));
    assert_eq!(parse_wb_time("+2000-02-29"), Ok(dt(2000, 2, 29, 0, 0, 0)));
    // the first character is the era, whatever it is
    assert_eq!(parse_wb_time("2001-12-31"), Ok(dt(-1, 12, 31, 0, 0, 0)));
    // seconds are read from their first two characters
    assert_eq!(parse_wb_time("+2001-01-01T01:02:03.5Z"), Ok(dt(2001, 1, 1, 1, 2, 3)));
}

#[test]
fn time_errors() {
    assert_eq!(parse_wb_time(""), Err(EntityError::TimeEmpty));
    assert_eq!(parse_wb_time("+abc-01-01"), Err(EntityError::NoDateYear));
    assert_eq!(parse_wb_time("+"), Err(EntityError::NoDateYear));
    assert_eq!(parse_wb_time("+2001-02-30"), Err(EntityError::NoDateMatched));
    assert_eq!(parse_wb_time("+1900-02-29"), Err(EntityError::NoDateMatched));
    assert_eq!(parse_wb_time("+2001-13-01"), Err(EntityError::NoDateMatched));
    assert_eq!(parse_wb_time("+262143-01-01"), Err(EntityError::NoDateMatched));
    assert_eq!(parse_wb_time("-262144-01-01"), Err(EntityError::NoDateMatched));
    assert_eq!(parse_wb_time("+262142-12-31"), Ok(dt(262142, 12, 31, 0, 0, 0)));
    assert_eq!(parse_wb_time("+2001-12-31Tx:00:00Z"), Err(EntityError::FloatParse));
    assert_eq!(parse_wb_time("+2001-12-31T12"), Err(EntityError::MissingMinute));
    assert_eq!(parse_wb_time("+2001-12-31T12:00"), Err(EntityError::MissingSecond));
    assert_eq!(parse_wb_time("+2001-12-31T12:0x:00Z"), Err(EntityError::FloatParse));
    assert_eq!(parse_wb_time("+2001-12-31T12:00:x0Z"), Err(EntityError::FloatParse));
    // a two-byte character in the seconds ends the byte range early
    assert_eq!(parse_wb_time("+2001-12-31T12:00:\u{e9}0Z"), Err(EntityError::FloatParse));
}

#[test]
fn time_roundtrip_example() {
    assert_eq!(parse_wb_time("+0042-07-04T05:06:07Z"), Ok(dt(42, 7, 4, 5, 6, 7)));
    assert_eq!(parse_wb_time("-44-03-15T00:00:00Z"), Ok(dt(-44, 3, 15, 0, 0, 0)));
}

#[test]
fn qid_errors() {
    assert_eq!(try_get_as_qid(&Json::Null), Err(EntityError::ExpectedString));
    assert_eq!(try_get_as_qid(&s("http://example.org/Q1")), Err(EntityError::ExpectedQidString));
    assert_eq!(
        try_get_as_qid(&s("http://www.wikidata.org/entity/Qx")),
        Err(EntityError::FloatParse)
    );
    assert_eq!(
        try_get_as_qid(&s("see http://www.wikidata.org/entity/Q5")),
        Ok(Qid(5))
    );
    assert_eq!(
        try_get_as_qid(&s(
            "http://www.wikidata.org/entity/Q5http://www.wikidata.org/entity/Q6"
        )),
        Ok(Qid(5))
    );
    assert_eq!(
        try_get_as_qid(&s("http://www.wikidata.org/entity/Q18446744073709551616")),
        Err(EntityError::FloatParse)
    );
}

#[test]
fn wb_numbers() {
    let n = num(false, 15, -1);
    assert_eq!(
        parse_wb_number(&n),
        Ok(WbNumber::Json(JsonNumber { positive: false, mantissa: 15, exponent: -1 }))
    );
    for text in ["+1.5", "-0.25e-3", "12", ".5", "5.", "1E10", "inf", "-Infinity", "NaN"] {
        assert_eq!(parse_wb_number(&s(text)), Ok(WbNumber::Text(text.to_string())));
    }
    for text in ["", ".", "1e", "abc", " 1", "1 ", "1.2.3", "e5", "+-1", "0x10"] {
        assert_eq!(parse_wb_number(&s(text)), Err(EntityError::FloatParse));
    }
    assert_eq!(parse_wb_number(&Json::Bool(true)), Err(EntityError::ExpectedString));
    assert_eq!(parse_wb_number(&Json::Null), Err(EntityError::ExpectedString));
}

#[test]
fn string_snaks() {
    let cases = [
        ("string", ClaimValueData::Stringg("abc".to_string())),
        ("commonsMedia", ClaimValueData::CommonsMedia("abc".to_string())),
        ("external-id", ClaimValueData::ExternalID("abc".to_string())),
        ("math", ClaimValueData::MathExpr("abc".to_string())),
        ("geo-shape", ClaimValueData::GeoShape("abc".to_string())),
        ("musical-notation", ClaimValueData::MusicNotation("abc".to_string())),
        ("tabular-data", ClaimValueData::TabularData("abc".to_string())),
        ("url", ClaimValueData::Url("abc".to_string())),
    ];
    for (datatype, expected) in cases {
        assert_eq!(ClaimValueData::parse_snak(snak(datatype, "string", s("abc"))), Ok(expected));
    }
    assert_eq!(
        ClaimValueData::parse_snak(snak("quux", "string", s("abc"))),
        Err(EntityError::InvalidDatatype)
    );
}

#[test]
fn entity_id_snaks() {
    let id = |x: &str| snak("wikibase-item", "wikibase-entityid", obj(vec![("id", s(x))]));
    assert_eq!(ClaimValueData::parse_snak(id("Q42")), Ok(ClaimValueData::Item(Qid(42))));
    assert_eq!(ClaimValueData::parse_snak(id("P31")), Ok(ClaimValueData::Property(Pid(31))));
    assert_eq!(ClaimValueData::parse_snak(id("L7")), Ok(ClaimValueData::Lexeme(Lid(7))));
    assert_eq!(
        ClaimValueData::parse_snak(id("L7-F2")),
        Ok(ClaimValueData::Form(Fid(Lid(7), 2)))
    );
    assert_eq!(
        ClaimValueData::parse_snak(id("L7-S3")),
        Ok(ClaimValueData::Sense(Sid(Lid(7), 3)))
    );
    assert_eq!(ClaimValueData::parse_snak(id("L7-X3")), Err(EntityError::BadId));
    assert_eq!(ClaimValueData::parse_snak(id("L7-F3-S1")), Err(EntityError::BadId));
    assert_eq!(ClaimValueData::parse_snak(id("X1")), Err(EntityError::BadId));
    assert_eq!(
        ClaimValueData::parse_snak(snak("wikibase-item", "wikibase-entityid", obj(vec![]))),
        Err(EntityError::ExpectedString)
    );
}

#[test]
fn coordinate_quantity_time_text_snaks() {
    let globe = s("http://www.wikidata.org/entity/Q2");
    let coord = snak(
        "globe-coordinate",
        "globecoordinate",
        obj(vec![
            ("latitude", num(true, 525, -1)),
            ("longitude", s("13.4")),
            ("altitude", Json::Null),
            ("precision", num(true, 1, -4)),
            ("globe", globe),
        ]),
    );
    assert_eq!(
        ClaimValueData::parse_snak(coord),
        Ok(ClaimValueData::GlobeCoordinate {
            lat: WbNumber::Json(JsonNumber { positive: true, mantissa: 525, exponent: -1 }),
            lon: WbNumber::Text("13.4".to_string()),
            precision: WbNumber::Json(JsonNumber { positive: true, mantissa: 1, exponent: -4 }),
            globe: Qid(2),
        })
    );
    let bad_coord = snak("globe-coordinate", "globecoordinate", obj(vec![("latitude", s("x"))]));
    assert_eq!(ClaimValueData::parse_snak(bad_coord), Err(EntityError::FloatParse));

    let quantity = snak(
        "quantity",
        "quantity",
        obj(vec![
            ("amount", s("+10")),
            ("unit", s("1")),
            ("upperBound", s("+11")),
        ]),
    );
    assert_eq!(
        ClaimValueData::parse_snak(quantity),
        Ok(ClaimValueData::Quantity {
            amount: WbNumber::Text("+10".to_string()),
            lower_bound: None,
            upper_bound: Some(WbNumber::Text("+11".to_string())),
            unit: None,
        })
    );
    let quantity_unit = snak(
        "quantity",
        "quantity",
        obj(vec![("amount", s("+10")), ("unit", s("http://www.wikidata.org/entity/Q11573"))]),
    );
    match ClaimValueData::parse_snak(quantity_unit) {
        Ok(ClaimValueData::Quantity { unit, .. }) => assert_eq!(unit, Some(Qid(11573))),
        other => panic!("unexpected {:?}", other),
    }

    let time = snak(
        "time",
        "time",
        obj(vec![("time", s("+2001-12-31T00:00:00Z")), ("precision", num(true, 11, 0))]),
    );
    assert_eq!(
        ClaimValueData::parse_snak(time),
        Ok(ClaimValueData::DateTime {
            date_time: dt(2001, 12, 31, 0, 0, 0),
            precision: WbNumber::Json(JsonNumber { positive: true, mantissa: 11, exponent: 0 }),
        })
    );
    let bad_time = snak("time", "time", obj(vec![("time", s("+2001-02-30"))]));
    assert_eq!(ClaimValueData::parse_snak(bad_time), Err(EntityError::NoDateMatched));

    let text = snak(
        "monolingualtext",
        "monolingualtext",
        obj(vec![("text", s("Berlin")), ("language", s("de"))]),
    );
    assert_eq!(
        ClaimValueData::parse_snak(text),
        Ok(ClaimValueData::MonolingualText { text: "Berlin".to_string(), lang: "de".to_string() })
    );
    let no_lang = snak("monolingualtext", "monolingualtext", obj(vec![("text", s("Berlin"))]));
    assert_eq!(ClaimValueData::parse_snak(no_lang), Err(EntityError::ExpectedString));

    assert_eq!(
        ClaimValueData::parse_snak(snak("x", "something-new", Json::Null)),
        Err(EntityError::UnknownDatatype)
    );
}

#[test]
fn snak_types() {
    let some = obj(vec![("snaktype", s("somevalue")), ("datatype", s("time"))]);
    assert_eq!(ClaimValueData::parse_snak(some), Ok(ClaimValueData::UnknownValue));
    let none = obj(vec![("snaktype", s("novalue")), ("datatype", s("time"))]);
    assert_eq!(ClaimValueData::parse_snak(none), Ok(ClaimValueData::NoValue));
    let odd = obj(vec![("snaktype", s("odd")), ("datatype", s("time"))]);
    assert_eq!(ClaimValueData::parse_snak(odd), Err(EntityError::InvalidSnaktype));
    let no_type = obj(vec![("snaktype", s("novalue"))]);
    assert_eq!(ClaimValueData::parse_snak(no_type), Err(EntityError::ExpectedString));
    assert_eq!(ClaimValueData::parse_snak(Json::Null), Err(EntityError::ExpectedString));
}

fn item_snak(q: u64) -> Json {
    snak("wikibase-item", "wikibase-entityid", obj(vec![("id", s(&format!("Q{}", q)))]))
}

fn statement(rank: &str) -> Json {
    obj(vec![
        ("mainsnak", item_snak(5)),
        ("type", s("statement")),
        ("id", s("Q42$abc")),
        ("rank", s(rank)),
        (
            "qualifiers",
            obj(vec![
                ("P580", Json::Array(vec![item_snak(1), Json::Null, item_snak(2)])),
                ("P582", Json::Array(vec![item_snak(3)])),
            ]),
        ),
        (
            "references",
            Json::Array(vec![
                obj(vec![(
                    "snaks",
                    obj(vec![
                        ("P143", Json::Array(vec![item_snak(328)])),
                        ("P813", Json::Array(vec![Json::Null])),
                    ]),
                )]),
                obj(vec![("hash", s("x"))]),
            ]),
        ),
    ])
}

#[test]
fn statements() {
    let v = ClaimValue::get_prop_from_snak(statement("preferred"), false).unwrap();
    assert_eq!(
        v,
        ClaimValue {
            data: ClaimValueData::Item(Qid(5)),
            rank: Rank::Preferred,
            id: "Q42$abc".to_string(),
            qualifiers: vec![
                (Pid(580), ClaimValueData::Item(Qid(1))),
                (Pid(580), ClaimValueData::Item(Qid(2))),
                (Pid(582), ClaimValueData::Item(Qid(3))),
            ],
            references: vec![
                ReferenceGroup { claims: vec![(Pid(143), ClaimValueData::Item(Qid(328)))] },
                ReferenceGroup { claims: vec![] },
            ],
        }
    );
    let w = ClaimValue::get_prop_from_snak(statement("normal"), true).unwrap();
    assert_eq!(w.rank, Rank::Normal);
    assert_eq!(w.id, "");
    assert!(ClaimValue::get_prop_from_snak(statement("deprecated"), false).is_none());
    assert!(ClaimValue::get_prop_from_snak(statement("odd"), false).is_none());
}

#[test]
fn statements_dropped() {
    let bad_main = obj(vec![("rank", s("normal")), ("mainsnak", Json::Null)]);
    assert!(ClaimValue::get_prop_from_snak(bad_main, true).is_none());
    let bad_qualifier = obj(vec![
        ("rank", s("normal")),
        ("mainsnak", item_snak(1)),
        ("qualifiers", obj(vec![("P1", Json::Null)])),
    ]);
    assert!(ClaimValue::get_prop_from_snak(bad_qualifier, true).is_none());
    let bare = obj(vec![("rank", s("normal")), ("mainsnak", item_snak(1))]);
    let v = ClaimValue::get_prop_from_snak(bare, true).unwrap();
    assert!(v.qualifiers.is_empty() && v.references.is_empty());
}

fn claim(data: ClaimValueData) -> ClaimValue {
    ClaimValue { data, ..ClaimValue::default() }
}

#[test]
fn entity_accessors() {
    let birth = dt(1952, 3, 11, 0, 0, 0);
    let death = dt(2001, 5, 11, 0, 0, 0);
    let p = WbNumber::Json(JsonNumber { positive: true, mantissa: 11, exponent: 0 });
    let e = Entity {
        claims: vec![
            (Pid(INSTANCE_OF), claim(ClaimValueData::Item(Qid(5)))),
            (Pid(DATE_OF_BIRTH), claim(ClaimValueData::NoValue)),
            (Pid(DATE_OF_BIRTH), claim(ClaimValueData::DateTime { date_time: birth, precision: p.clone() })),
            (Pid(INSTANCE_OF), claim(ClaimValueData::UnknownValue)),
            (Pid(1), claim(ClaimValueData::Item(Qid(9)))),
            (Pid(INSTANCE_OF), claim(ClaimValueData::Item(Qid(36180)))),
            (Pid(DATE_OF_DEATH), claim(ClaimValueData::DateTime { date_time: death, precision: p })),
        ],
        entity_type: EntityType::Entity,
    };
    assert_eq!(e.instances(), vec![Qid(5), Qid(36180)]);
    assert_eq!(e.start_time(), Some(birth));
    assert_eq!(e.end_time(), Some(death));
    let empty = Entity { claims: vec![], entity_type: EntityType::Property };
    assert!(empty.instances().is_empty());
    assert_eq!(empty.start_time(), None);
    assert_eq!(empty.end_time(), None);
}

#[test]
fn defaults() {
    assert_eq!(Rank::default(), Rank::Normal);
    assert_eq!(ClaimValueData::default(), ClaimValueData::NoValue);
    let c = ClaimValue::default();
    assert_eq!(c.rank, Rank::Normal);
    assert!(c.id.is_empty() && c.qualifiers.is_empty() && c.references.is_empty());
    assert!(Rank::Deprecated < Rank::Normal && Rank::Normal < Rank::Preferred);
}
