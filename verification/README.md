# wikidata

Reading Wikibase (Wikidata) entities from the JSON form of their snaks and
statements, verified with Verus.

- `src/json_value.rs`: the JSON model the readers work on (`Json`).
- `src/text.rs`: characters, integer and float literals as `str::parse` accepts
  them, `str::split`, substring search.
- `src/time.rs`: Wikibase time strings (`+2001-12-31T00:00:00Z`) read as UTC
  date-times; chrono decides which calendar dates exist.
- `src/entity.rs`: snaks (`ClaimValueData::parse_snak`), statements
  (`ClaimValue::get_prop_from_snak`), entities and their accessors. Each reader has a
  spec function that gives its result for every input, including the inputs on
  which it panics (those are excluded by `requires`).
- `src/laws.rs`: properties over all inputs, such as that a date-time written in the
  Wikibase form reads back as itself.
- `app/lib.rs`: serde forms of the types (with `f64` numbers and chrono date-times)
  and the conversion from values parsed by the `json` crate.
