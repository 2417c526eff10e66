//! Properties of the readers that hold for all inputs.
use vstd::prelude::*;
use crate::ids::{Fid, Lid, Pid, Qid, Sid};
use crate::ids::consts::INSTANCE_OF;
use crate::json_value::{Json, members};
use crate::text::{
    float_literal, mantissa_ok, exponent_ok, number_ok, unsigned_part, lower_eq, to_lower, is_sign,
    all_digits, digit_value, digits_value, find_from, has_char, is_digit, occurs_at,
    parse_int_spec, parse_i32_spec, second_piece,
    split_spec, utf8_len, lemma_split_spec,
};
use crate::time::{UtcDateTime, civil_date_exists, wb_time_spec, first_two_bytes, date_field, time_of_day_spec};
use crate::entity::{
    EntityError, WbNumber, snak_claims, entry_claims, reference_groups, qualifier_entries,
    group_claims, pid_key_spec, wb_number_spec, references_spec, qualifiers_spec, ClaimValue, ClaimValueData, ClaimValueView, Rank, claim_spec, entity_id_spec,
    entity_iri_prefix, first_date, instances_spec, qid_spec, rank_spec, snak_spec,
};

verus! {

// ---------------------------------------------------------------------------
// Decimal numerals
// ---------------------------------------------------------------------------

/// The digit character for `d` (0 to 9).
pub open spec fn digit_char(d: nat) -> char {
    (('0' as u32) + d) as char
}

/// The shortest decimal numeral of `n`.
pub open spec fn decimal(n: nat) -> Seq<char>
    decreases n,
{
    if n < 10 {
        seq![digit_char(n)]
    } else {
        decimal(n / 10).push(digit_char(n % 10))
    }
}

/// The two-digit numeral of `n` (below 100), with a leading zero where needed.
pub open spec fn two_digits(n: nat) -> Seq<char> {
    seq![digit_char(n / 10), digit_char(n % 10)]
}

proof fn lemma_digit_char(d: nat)
    requires
        d < 10,
    ensures
        is_digit(digit_char(d)),
        digit_value(digit_char(d)) == d,
        utf8_len(digit_char(d)) == 1,
        digit_char(d) != '-' && digit_char(d) != 'T' && digit_char(d) != ':' && digit_char(d)
            != '+',
{
}

/// A decimal numeral is a non-empty run of digits whose value is the number.
pub proof fn lemma_decimal(n: nat)
    ensures
        decimal(n).len() >= 1,
        all_digits(decimal(n)),
        digits_value(decimal(n)) == n,
    decreases n,
{
    lemma_digit_char(n % 10);
    let d = decimal(n);
    if n < 10 {
        assert(d.drop_last() =~= Seq::<char>::empty());
        assert(digits_value(Seq::<char>::empty()) == 0);
        assert(digits_value(d) == digit_value(d.last()));
    } else {
        lemma_decimal(n / 10);
        assert(d.drop_last() =~= decimal(n / 10));
        assert(d.last() == digit_char(n % 10));
        assert(digits_value(d) == digits_value(decimal(n / 10)) * 10 + digit_value(digit_char(n % 10)));
        assert(n == (n / 10) * 10 + n % 10);
        assert forall|i: int| 0 <= i < d.len() implies #[trigger] is_digit(d[i]) by {
            if i < d.len() - 1 {
                assert(d[i] == decimal(n / 10)[i]);
            }
        }
    }
}

/// The two-digit numeral of `n` is two digits whose value is `n`.
pub proof fn lemma_two_digits(n: nat)
    requires
        n < 100,
    ensures
        two_digits(n).len() == 2,
        all_digits(two_digits(n)),
        digits_value(two_digits(n)) == n,
{
    lemma_digit_char(n / 10);
    lemma_digit_char(n % 10);
    let t = two_digits(n);
    let hi = seq![digit_char(n / 10)];
    assert(t.drop_last() =~= hi);
    assert(hi.drop_last() =~= Seq::<char>::empty());
    assert(digits_value(Seq::<char>::empty()) == 0);
    assert(digits_value(hi) == n / 10);
    assert(digits_value(t) == (n / 10) * 10 + n % 10);
    assert forall|i: int| 0 <= i < t.len() implies #[trigger] is_digit(t[i]) by {}
}

/// A run of digits reads as its value wherever that is in range.
pub proof fn lemma_parse_digits(s: Seq<char>, min: int, max: int)
    requires
        s.len() >= 1,
        all_digits(s),
        min <= digits_value(s) <= max,
    ensures
        parse_int_spec(s, min, max) == Some(digits_value(s) as int),
{
    assert(is_digit(s[0]));
}

/// A decimal numeral holds none of the separators of ids and times.
proof fn lemma_digits_no_char(s: Seq<char>, c: char)
    requires
        all_digits(s),
        !is_digit(c),
    ensures
        !has_char(s, c),
{
    if has_char(s, c) {
        let i = choose|i: int| 0 <= i < s.len() && s[i] == c;
        assert(is_digit(s[i]));
    }
}

// ---------------------------------------------------------------------------
// Splitting
// ---------------------------------------------------------------------------

/// Text without the separator is one piece.
pub proof fn lemma_split_none(a: Seq<char>, c: char)
    requires
        !has_char(a, c),
    ensures
        split_spec(a, c) == seq![a],
    decreases a.len(),
{
    if a.len() == 0 {
        assert(a =~= Seq::<char>::empty());
        assert(split_spec(a, c) =~= seq![a]);
    } else {
        let p = a.drop_last();
        if has_char(p, c) {
            let i = choose|i: int| 0 <= i < p.len() && p[i] == c;
            assert(a[i] == c);
        }
        lemma_split_none(p, c);
        assert(a[a.len() - 1] != c);
        assert(p.push(a.last()) =~= a);
        let prev = split_spec(p, c);
        assert(prev == seq![p]);
        assert(split_spec(a, c) == prev.update(prev.len() - 1, prev.last().push(a.last())));
        assert(prev.len() == 1);
        assert(prev.last() == p);
        let u = prev.update(0, a);
        assert(u.len() == 1 && u[0] == a);
        assert(u =~= seq![a]);
    }
}

/// Splitting at the first separator: the text before it is the first piece.
pub proof fn lemma_split_first_sep(a: Seq<char>, c: char, b: Seq<char>)
    requires
        !has_char(a, c),
    ensures
        split_spec(a + seq![c] + b, c) == seq![a] + split_spec(b, c),
    decreases b.len(),
{
    let s = a + seq![c] + b;
    if b.len() == 0 {
        assert(s.drop_last() =~= a);
        lemma_split_none(a, c);
        assert(split_spec(b, c) =~= seq![Seq::<char>::empty()]);
        assert(split_spec(s, c) =~= seq![a] + split_spec(b, c));
    } else {
        let b0 = b.drop_last();
        lemma_split_first_sep(a, c, b0);
        lemma_split_spec(b0, c);
        assert(s.drop_last() =~= a + seq![c] + b0);
        assert(s.last() == b.last());
        let prev = split_spec(b0, c);
        if b.last() == c {
            assert(split_spec(s, c) =~= seq![a] + split_spec(b, c));
        } else {
            assert((seq![a] + prev).last() == prev.last());
            assert(split_spec(s, c) =~= seq![a] + split_spec(b, c));
        }
    }
}

// ---------------------------------------------------------------------------
// Entity IRIs and ids
// ---------------------------------------------------------------------------

/// Where the text from `start` on holds no `h`, an entity IRI prefix occurs no more.
proof fn lemma_find_none(s: Seq<char>, p: Seq<char>, start: int)
    requires
        p.len() >= 1,
        p[0] == 'h',
        0 <= start,
        forall|i: int| start <= i < s.len() ==> s[i] != 'h',
    ensures
        find_from(s, p, start) is None,
    decreases s.len() + 1 - start,
{
    if start + p.len() <= s.len() {
        assert(s.subrange(start, start + p.len())[0] == s[start]);
        lemma_find_none(s, p, start + 1);
    }
}

/// The IRI of item `Qn` reads as `Qn`.
pub proof fn lemma_iri_roundtrip(s: String, n: u64)
    requires
        s@ == entity_iri_prefix() + decimal(n as nat),
    ensures
        qid_spec(Json::Str(s)) == Ok::<Qid, crate::entity::EntityError>(Qid(n)),
{
    reveal_strlit("http://www.wikidata.org/entity/Q");
    let p = entity_iri_prefix();
    let d = decimal(n as nat);
    lemma_decimal(n as nat);
    assert(p.len() == 32);
    assert(s@.subrange(0, 32) =~= p);
    assert(occurs_at(s@, p, 0));
    assert forall|i: int| 32 <= i < s@.len() implies s@[i] != 'h' by {
        assert(s@[i] == d[i - 32]);
        assert(is_digit(d[i - 32]));
    }
    lemma_find_none(s@, p, 32);
    assert(s@.subrange(32, s@.len() as int) =~= d);
    assert(second_piece(s@, p) == Some(d));
    lemma_parse_digits(d, 0, u64::MAX as int);
}

/// The ids `Qn`, `Pn` and `Ln` read as item, property and lexeme `n`.
pub proof fn lemma_simple_id_roundtrip(letter: char, n: u64)
    requires
        letter == 'Q' || letter == 'P' || letter == 'L',
    ensures
        entity_id_spec(seq![letter] + decimal(n as nat)) == Some(
            Ok::<ClaimValueData, crate::entity::EntityError>(
                if letter == 'Q' {
                    ClaimValueData::Item(Qid(n))
                } else if letter == 'P' {
                    ClaimValueData::Property(Pid(n))
                } else {
                    ClaimValueData::Lexeme(Lid(n))
                },
            ),
        ),
{
    let d = decimal(n as nat);
    let id = seq![letter] + d;
    lemma_decimal(n as nat);
    assert(id.drop_first() =~= d);
    lemma_parse_digits(d, 0, u64::MAX as int);
    if letter == 'L' {
        lemma_digits_no_char(d, '-');
        assert(!has_char(id, '-')) by {
            if has_char(id, '-') {
                let i = choose|i: int| 0 <= i < id.len() && id[i] == '-';
                assert(id[i] == d[i - 1]);
            }
        }
        lemma_split_none(id, '-');
    }
}

/// The ids `Ll-Fn` and `Ll-Sn` read as form and sense `n` of lexeme `l`.
pub proof fn lemma_lexeme_part_roundtrip(kind: char, l: u64, n: u16)
    requires
        kind == 'F' || kind == 'S',
    ensures
        entity_id_spec(seq!['L'] + decimal(l as nat) + seq!['-', kind] + decimal(n as nat))
            == Some(
            Ok::<ClaimValueData, crate::entity::EntityError>(
                if kind == 'F' {
                    ClaimValueData::Form(Fid(Lid(l), n))
                } else {
                    ClaimValueData::Sense(Sid(Lid(l), n))
                },
            ),
        ),
{
    let dl = decimal(l as nat);
    let dn = decimal(n as nat);
    lemma_decimal(l as nat);
    lemma_decimal(n as nat);
    let first = seq!['L'] + dl;
    let second = seq![kind] + dn;
    let id = seq!['L'] + dl + seq!['-', kind] + dn;
    assert(id =~= first + seq!['-'] + second);
    lemma_digits_no_char(dl, '-');
    lemma_digits_no_char(dn, '-');
    assert(!has_char(first, '-')) by {
        if has_char(first, '-') {
            let i = choose|i: int| 0 <= i < first.len() && first[i] == '-';
            assert(first[i] == dl[i - 1]);
        }
    }
    assert(!has_char(second, '-')) by {
        if has_char(second, '-') {
            let i = choose|i: int| 0 <= i < second.len() && second[i] == '-';
            assert(second[i] == dn[i - 1]);
        }
    }
    lemma_split_first_sep(first, '-', second);
    lemma_split_none(second, '-');
    let parts = split_spec(id, '-');
    assert(parts =~= seq![first, second]);
    assert(first.drop_first() =~= dl);
    assert(second.drop_first() =~= dn);
    lemma_parse_digits(dl, 0, u64::MAX as int);
    lemma_parse_digits(dn, 0, u16::MAX as int);
}

// ---------------------------------------------------------------------------
// Time strings
// ---------------------------------------------------------------------------

/// A time string with the era sign first (`-` before the common era), the year
/// written out in full, and two-digit month, day, hour, minute and second fields:
/// `+YYYY-MM-DDTHH:MM:SSZ`.
pub open spec fn time_string(year: int, month: nat, day: nat, hour: nat, minute: nat, second: nat) -> Seq<char> {
    let sign = if year >= 0 {
        '+'
    } else {
        '-'
    };
    let abs_year = if year >= 0 {
        year
    } else {
        -year
    };
    seq![sign] + decimal(abs_year as nat) + seq!['-'] + two_digits(month) + seq!['-']
        + two_digits(day) + seq!['T'] + two_digits(hour) + seq![':'] + two_digits(minute)
        + seq![':'] + two_digits(second) + seq!['Z']
}

/// The Wikibase form of a date-time: `+YYYY-MM-DDTHH:MM:SSZ`.
pub open spec fn wb_time_string(dt: UtcDateTime) -> Seq<char> {
    time_string(
        dt.year as int,
        dt.month as nat,
        dt.day as nat,
        dt.hour as nat,
        dt.minute as nat,
        dt.second as nat,
    )
}

/// A month or day field of `00` stands for 1.
pub open spec fn field_or_one(n: nat) -> nat {
    if n == 0 {
        1
    } else {
        n
    }
}

/// Two digits hold no separator of a time string.
proof fn lemma_two_digits_no_char(n: nat, c: char)
    requires
        n < 100,
        !is_digit(c),
    ensures
        !has_char(two_digits(n), c),
{
    lemma_two_digits(n);
    lemma_digits_no_char(two_digits(n), c);
}

/// A concatenation holds a character only where one of its parts does.
proof fn lemma_concat_no_char(a: Seq<char>, b: Seq<char>, c: char)
    requires
        !has_char(a, c),
        !has_char(b, c),
    ensures
        !has_char(a + b, c),
{
    if has_char(a + b, c) {
        let i = choose|i: int| 0 <= i < (a + b).len() && (a + b)[i] == c;
        if i < a.len() {
            assert(a[i] == c);
        } else {
            assert(b[i - a.len()] == c);
        }
    }
}

/// Reading a time string: the year keeps its era, a month or day of `00` counts as
/// 1 and leaves the other fields as they are read; a date that does not exist is
/// refused, and a time of day out of range panics.
pub proof fn lemma_time_string_fields(year: int, month: nat, day: nat, hour: nat, minute: nat, second: nat)
    requires
        -0x7fff_ffff <= year <= 0x7fff_ffff,
        month < 100,
        day < 100,
        hour < 100,
        minute < 100,
        second < 100,
    ensures
        ({
            let m = field_or_one(month);
            let d = field_or_one(day);
            let r = wb_time_spec(time_string(year, month, day, hour, minute, second));
            &&& !civil_date_exists(year, m as int, d as int) ==> r == Some(
                Err::<UtcDateTime, crate::entity::EntityError>(crate::entity::EntityError::NoDateMatched),
            )
            &&& civil_date_exists(year, m as int, d as int) && hour < 24 && minute < 60 && second < 60
                ==> r == Some(
                Ok::<UtcDateTime, crate::entity::EntityError>(
                    UtcDateTime {
                        year: year as i32,
                        month: m as u32,
                        day: d as u32,
                        hour: hour as u32,
                        minute: minute as u32,
                        second: second as u32,
                    },
                ),
            )
            &&& civil_date_exists(year, m as int, d as int) && !(hour < 24 && minute < 60 && second < 60)
                ==> r is None
        }),
{
        let abs_year: nat = if year >= 0 {
        year as nat
    } else {
        (-year) as nat
    };
    let y = decimal(abs_year);
    let mo = two_digits(month);
    let da = two_digits(day);
    let h = two_digits(hour);
    let mi = two_digits(minute);
    let se = two_digits(second);
    let sign = if year >= 0 {
        '+'
    } else {
        '-'
    };
    let t = time_string(year, month, day, hour, minute, second);
    lemma_decimal(abs_year);
    lemma_two_digits(month);
    lemma_two_digits(day);
    lemma_two_digits(hour);
    lemma_two_digits(minute);
    lemma_two_digits(second);
    // The date part and the time part, either side of the `T`.
    let date_part = y + seq!['-'] + mo + seq!['-'] + da;
    let time_part = h + seq![':'] + mi + seq![':'] + se + seq!['Z'];
    assert(t.drop_first() =~= date_part + seq!['T'] + time_part);
    assert(t[0] == sign);
    // No `T` in either part.
    lemma_digits_no_char(y, 'T');
    lemma_two_digits_no_char(month, 'T');
    lemma_two_digits_no_char(day, 'T');
    lemma_two_digits_no_char(hour, 'T');
    lemma_two_digits_no_char(minute, 'T');
    lemma_two_digits_no_char(second, 'T');
    assert(!has_char(seq!['-'], 'T'));
    assert(!has_char(seq![':'], 'T'));
    assert(!has_char(seq!['Z'], 'T'));
    lemma_concat_no_char(y, seq!['-'], 'T');
    lemma_concat_no_char(y + seq!['-'], mo, 'T');
    lemma_concat_no_char(y + seq!['-'] + mo, seq!['-'], 'T');
    lemma_concat_no_char(y + seq!['-'] + mo + seq!['-'], da, 'T');
    lemma_concat_no_char(h, seq![':'], 'T');
    lemma_concat_no_char(h + seq![':'], mi, 'T');
    lemma_concat_no_char(h + seq![':'] + mi, seq![':'], 'T');
    lemma_concat_no_char(h + seq![':'] + mi + seq![':'], se, 'T');
    lemma_concat_no_char(h + seq![':'] + mi + seq![':'] + se, seq!['Z'], 'T');
    lemma_split_first_sep(date_part, 'T', time_part);
    lemma_split_none(time_part, 'T');
    let tparts = split_spec(t.drop_first(), 'T');
    assert(tparts =~= seq![date_part, time_part]);
    // The date part, split at the dashes.
    lemma_digits_no_char(y, '-');
    lemma_two_digits_no_char(month, '-');
    lemma_two_digits_no_char(day, '-');
    assert(date_part =~= y + seq!['-'] + (mo + seq!['-'] + da));
    lemma_split_first_sep(y, '-', mo + seq!['-'] + da);
    lemma_split_first_sep(mo, '-', da);
    lemma_split_none(da, '-');
    let dparts = split_spec(tparts[0], '-');
    assert(dparts =~= seq![y, mo, da]);
    lemma_parse_digits(y, i32::MIN as int, i32::MAX as int);
    lemma_parse_digits(mo, 0, u32::MAX as int);
    lemma_parse_digits(da, 0, u32::MAX as int);
    assert(parse_i32_spec(dparts[0]) == Some(abs_year as i32));
    assert(date_field(dparts, 1) == if month == 0 {
        None
    } else {
        Some(month as u32)
    });
    assert(date_field(dparts, 2) == if day == 0 {
        None
    } else {
        Some(day as u32)
    });
    // The time part, split at the colons.
    lemma_two_digits_no_char(hour, ':');
    lemma_two_digits_no_char(minute, ':');
    let last = se + seq!['Z'];
    lemma_two_digits_no_char(second, ':');
    assert(!has_char(seq!['Z'], ':'));
    lemma_concat_no_char(se, seq!['Z'], ':');
    assert(time_part =~= h + seq![':'] + (mi + seq![':'] + last));
    lemma_split_first_sep(h, ':', mi + seq![':'] + last);
    lemma_split_first_sep(mi, ':', last);
    lemma_split_none(last, ':');
    let cparts = split_spec(tparts[1], ':');
    assert(cparts =~= seq![h, mi, last]);
    lemma_digit_char(second / 10);
    lemma_digit_char(second % 10);
    assert(last.take(2) =~= se);
    assert(first_two_bytes(last) == Some(se));
    lemma_parse_digits(h, 0, u32::MAX as int);
    lemma_parse_digits(mi, 0, u32::MAX as int);
    lemma_parse_digits(se, 0, u32::MAX as int);
    assert(time_of_day_spec(tparts) == Some(
        Ok::<(u32, u32, u32), crate::entity::EntityError>((hour as u32, minute as u32, second as u32)),
    ));
}

/// A well-formed date-time, written in the Wikibase form, reads back as itself.
pub proof fn lemma_wb_time_roundtrip(dt: UtcDateTime)
    requires
        dt.wf(),
    ensures
        wb_time_spec(wb_time_string(dt)) == Some(
            Ok::<UtcDateTime, crate::entity::EntityError>(dt),
        ),
{
    lemma_time_string_fields(
        dt.year as int,
        dt.month as nat,
        dt.day as nat,
        dt.hour as nat,
        dt.minute as nat,
        dt.second as nat,
    );
}

/// A month-precision date as Wikibase writes it (`+YYYY-MM-00T00:00:00Z`) reads as
/// the first day of that month: a zero day never changes the month.
pub proof fn lemma_zero_day_keeps_month(year: int, month: nat)
    requires
        0 <= year <= 262142,
        1 <= month <= 12,
    ensures
        wb_time_spec(time_string(year, month, 0, 0, 0, 0)) == Some(
            Ok::<UtcDateTime, crate::entity::EntityError>(
                UtcDateTime { year: year as i32, month: month as u32, day: 1, hour: 0, minute: 0, second: 0 },
            ),
        ),
{
    lemma_time_string_fields(year, month, 0, 0, 0, 0);
}

// ---------------------------------------------------------------------------
// Entities and statements
// ---------------------------------------------------------------------------

/// A claim of `instance of` whose value is an item.
pub open spec fn is_instance_claim(c: (Pid, ClaimValue)) -> bool {
    c.0 == Pid(INSTANCE_OF) && c.1.data is Item
}

/// The item that a claim names.
pub open spec fn claim_item(c: (Pid, ClaimValue)) -> Qid {
    c.1.data->Item_0
}

/// The instances of an entity are the items of its `P31` item claims, one for each
/// such claim (repeats included), in claim order.
pub proof fn lemma_instances_filter(claims: Seq<(Pid, ClaimValue)>)
    ensures
        instances_spec(claims) == claims.filter(|c: (Pid, ClaimValue)| is_instance_claim(c)).map_values(
            |c: (Pid, ClaimValue)| claim_item(c),
        ),
    decreases claims.len(),
{
    reveal_with_fuel(Seq::filter, 1);
    let pred = |c: (Pid, ClaimValue)| is_instance_claim(c);
    let f = |c: (Pid, ClaimValue)| claim_item(c);
    if claims.len() == 0 {
        assert(claims.filter(pred).map_values(f) =~= Seq::<Qid>::empty());
    } else {
        let prev = claims.drop_last();
        lemma_instances_filter(prev);
        let fp = prev.filter(pred);
        if pred(claims.last()) {
            assert(claims.filter(pred) == fp.push(claims.last()));
            assert(fp.push(claims.last()).map_values(f) =~= fp.map_values(f).push(f(claims.last())));
        } else {
            assert(claims.filter(pred) == fp);
        }
    }
}

/// The instances of an entity are exactly the items that its `P31` claims name.
pub proof fn lemma_instances_exact(claims: Seq<(Pid, ClaimValue)>, q: Qid)
    ensures
        instances_spec(claims).contains(q) <==> exists|i: int|
            0 <= i < claims.len() && #[trigger] claims[i].0 == Pid(INSTANCE_OF)
                && claims[i].1.data == ClaimValueData::Item(q),
        instances_spec(claims).len() <= claims.len(),
    decreases claims.len(),
{
    if claims.len() > 0 {
        let prev = claims.drop_last();
        lemma_instances_exact(prev, q);
        let last = claims.last();
        let pr = instances_spec(prev);
        let r = instances_spec(claims);
        let pushed = last.0 == Pid(INSTANCE_OF) && last.1.data is Item;
        if pushed {
            assert(r == pr.push(last.1.data->Item_0));
        } else {
            assert(r == pr);
        }
        // From the claims to the result.
        if exists|i: int|
            0 <= i < claims.len() && #[trigger] claims[i].0 == Pid(INSTANCE_OF) && claims[i].1.data
                == ClaimValueData::Item(q) {
            let i = choose|i: int|
                0 <= i < claims.len() && #[trigger] claims[i].0 == Pid(INSTANCE_OF)
                    && claims[i].1.data == ClaimValueData::Item(q);
            if i < prev.len() {
                assert(prev[i] == claims[i]);
                assert(prev[i].0 == Pid(INSTANCE_OF));
                let k = choose|k: int| 0 <= k < pr.len() && pr[k] == q;
                assert(r[k] == q);
                assert(r.contains(q));
            } else {
                assert(claims[i] == last);
                assert(r[r.len() - 1] == q);
                assert(r.contains(q));
            }
        }
        // From the result to the claims.
        if r.contains(q) {
            let k = choose|k: int| 0 <= k < r.len() && r[k] == q;
            if k < pr.len() {
                assert(r[k] == pr[k]);
                assert(pr.contains(q));
                let i = choose|i: int|
                    0 <= i < prev.len() && #[trigger] prev[i].0 == Pid(INSTANCE_OF)
                        && prev[i].1.data == ClaimValueData::Item(q);
                assert(claims[i] == prev[i]);
                assert(claims[i].0 == Pid(INSTANCE_OF));
            } else {
                assert(pushed);
                assert(claims[claims.len() - 1].0 == Pid(INSTANCE_OF));
            }
        }
    }
}

/// The date of a property is that of its first claim with a date-time value: a
/// date is found exactly when such a claim exists, and no earlier claim of the
/// property holds a date-time.
pub proof fn lemma_first_date(claims: Seq<(Pid, ClaimValue)>, p: Pid)
    ensures
        first_date(claims, p) is None <==> forall|i: int|
            0 <= i < claims.len() && #[trigger] claims[i].0 == p ==> !(claims[i].1.data is DateTime),
        first_date(claims, p) matches Some(d) ==> exists|i: int|
            0 <= i < claims.len() && #[trigger] claims[i].0 == p && (claims[i].1.data matches ClaimValueData::DateTime { date_time, .. } && date_time == d)
                && forall|j: int| 0 <= j < i && claims[j].0 == p ==> !(#[trigger] claims[j].1.data is DateTime),
    decreases claims.len(),
{
    if claims.len() > 0 {
        let rest = claims.drop_first();
        lemma_first_date(rest, p);
        assert forall|i: int| 0 <= i < rest.len() implies rest[i] == claims[i + 1] by {}
        if claims[0].0 == p && claims[0].1.data is DateTime {
            assert(claims[0].0 == p);
        } else {
            if first_date(rest, p) is None {
                assert forall|i: int| 0 <= i < claims.len() && #[trigger] claims[i].0 == p implies !(claims[i].1.data is DateTime) by {
                    if i > 0 {
                        assert(rest[i - 1].0 == p);
                    }
                }
            } else {
                let d = first_date(rest, p)->0;
                let i = choose|i: int|
                    0 <= i < rest.len() && #[trigger] rest[i].0 == p && (rest[i].1.data matches ClaimValueData::DateTime { date_time, .. } && date_time == d)
                        && forall|j: int| 0 <= j < i && rest[j].0 == p ==> !(#[trigger] rest[j].1.data is DateTime);
                assert(claims[i + 1].0 == p);
                assert forall|j: int| 0 <= j < i + 1 && claims[j].0 == p implies !(#[trigger] claims[j].1.data is DateTime) by {
                    if j > 0 {
                        assert(rest[j - 1] == claims[j]);
                    }
                }
                assert(!(claims[0].1.data is DateTime) ==> first_date(claims, p) == Some(d));
                assert(claims[0].0 != p ==> first_date(claims, p) == Some(d));
            }
        }
    }
}

/// A statement that is read holds what its main snak reads as, and keeps its rank,
/// which is never deprecated; with `skip_id` its id is empty.
pub proof fn lemma_statement_rank_and_id(claim: Json, skip_id: bool)
    ensures
        claim_spec(claim, skip_id) matches Some(Some(v)) ==> {
            &&& snak_spec(claim.prop("mainsnak"@)) == Some(
                Ok::<ClaimValueData, crate::entity::EntityError>(v.0),
            )
            &&& v.1 != Rank::Deprecated
            &&& claim.prop("rank"@).string() matches Some(r) && rank_spec(r@) == Some(v.1)
            &&& skip_id ==> v.2 == Seq::<char>::empty()
        },
{
}

/// A deprecated statement is dropped (the reader gives `None`).
pub proof fn lemma_deprecated_dropped(claim: Json, skip_id: bool, r: String)
    requires
        claim.prop("rank"@).string() == Some(r),
        r@ == "deprecated"@,
    ensures
        claim_spec(claim, skip_id) == Some(None::<ClaimValueView>),
{
}

/// A snak of type `somevalue` is an unknown value and one of type `novalue` no
/// value, whatever its datavalue, as long as it has a string datatype.
pub proof fn lemma_somevalue_novalue(snak: Json, datatype: String, snaktype: String)
    requires
        snak.prop("datatype"@).string() == Some(datatype),
        snak.prop("snaktype"@).string() == Some(snaktype),
    ensures
        snaktype@ == "somevalue"@ ==> snak_spec(snak) == Some(
            Ok::<ClaimValueData, crate::entity::EntityError>(ClaimValueData::UnknownValue),
        ),
        snaktype@ == "novalue"@ ==> snak_spec(snak) == Some(
            Ok::<ClaimValueData, crate::entity::EntityError>(ClaimValueData::NoValue),
        ),
{
    reveal_strlit("value");
    reveal_strlit("somevalue");
    reveal_strlit("novalue");
    assert("somevalue"@ != "value"@) by {
        assert("somevalue"@.len() != "value"@.len());
    }
    assert("novalue"@ != "value"@) by {
        assert("novalue"@[0] != "value"@[0]);
    }
    assert("novalue"@ != "somevalue"@) by {
        assert("novalue"@.len() != "somevalue"@.len());
    }
}

// ---------------------------------------------------------------------------
// Lists of snaks, reference groups and qualifiers
// ---------------------------------------------------------------------------

/// Both parts read: the claims of the first followed by those of the second;
/// otherwise the whole panics.
pub open spec fn concat_claims(
    x: Option<Seq<(Pid, ClaimValueData)>>,
    y: Option<Seq<(Pid, ClaimValueData)>>,
) -> Option<Seq<(Pid, ClaimValueData)>> {
    match (x, y) {
        (Some(a), Some(b)) => Some(a + b),
        _ => None,
    }
}

/// Reading the snaks of one property in two runs gives the claims of the first run
/// followed by those of the second; a panic in either is a panic of the whole.
pub proof fn lemma_snak_claims_concat(pid: Seq<char>, a: Seq<Json>, b: Seq<Json>)
    ensures
        snak_claims(pid, a + b) == concat_claims(snak_claims(pid, a), snak_claims(pid, b)),
    decreases b.len(),
{
    if b.len() == 0 {
        assert(a + b =~= a);
        if let Some(x) = snak_claims(pid, a) {
            assert(x + Seq::<(Pid, ClaimValueData)>::empty() =~= x);
        }
    } else {
        let b0 = b.drop_last();
        lemma_snak_claims_concat(pid, a, b0);
        assert((a + b).drop_last() =~= a + b0);
        assert((a + b).last() == b.last());
        if let (Some(x), Some(y)) = (snak_claims(pid, a), snak_claims(pid, b0)) {
            if let Some(Ok(d)) = snak_spec(b.last()) {
                if let Some(p) = pid_key_spec(pid) {
                    assert((x + y).push((p, d)) =~= x + y.push((p, d)));
                }
            }
        }
    }
}

/// One snak gives one claim, paired with its property, where it reads; nothing
/// where it does not; and it panics where reading it or the property panics.
pub proof fn lemma_snak_claims_one(pid: Seq<char>, snak: Json)
    ensures
        snak_claims(pid, seq![snak]) == match snak_spec(snak) {
            None => None,
            Some(Err(_)) => Some(Seq::<(Pid, ClaimValueData)>::empty()),
            Some(Ok(d)) => match pid_key_spec(pid) {
                None => None,
                Some(p) => Some(seq![(p, d)]),
            },
        },
{
    let s = seq![snak];
    assert(s.drop_last() =~= Seq::<Json>::empty());
    assert(snak_claims(pid, Seq::<Json>::empty()) == Some(Seq::<(Pid, ClaimValueData)>::empty()));
    if let Some(Ok(d)) = snak_spec(snak) {
        if let Some(p) = pid_key_spec(pid) {
            assert(Seq::<(Pid, ClaimValueData)>::empty().push((p, d)) =~= seq![(p, d)]);
        }
    }
}

/// The claims of a reference group's entries in two runs are those of the first
/// run followed by those of the second: no property of a group is lost.
pub proof fn lemma_entry_claims_concat(a: Seq<(String, Json)>, b: Seq<(String, Json)>)
    ensures
        entry_claims(a + b) == concat_claims(entry_claims(a), entry_claims(b)),
    decreases b.len(),
{
    if b.len() == 0 {
        assert(a + b =~= a);
        if let Some(x) = entry_claims(a) {
            assert(x + Seq::<(Pid, ClaimValueData)>::empty() =~= x);
        }
    } else {
        let b0 = b.drop_last();
        lemma_entry_claims_concat(a, b0);
        assert((a + b).drop_last() =~= a + b0);
        assert((a + b).last() == b.last());
        if let (Some(x), Some(y)) = (entry_claims(a), entry_claims(b0)) {
            if let Some(v) = snak_claims(b.last().0@, members(b.last().1)) {
                assert((x + y) + v =~= x + (y + v));
            }
        }
    }
}

/// One entry of a group's `snaks` object gives the claims of its snaks, each paired
/// with the entry's property.
pub proof fn lemma_entry_claims_one(e: (String, Json))
    ensures
        entry_claims(seq![e]) == snak_claims(e.0@, members(e.1)),
{
    let s = seq![e];
    assert(s.drop_last() =~= Seq::<(String, Json)>::empty());
    assert(s.last() == e);
    assert(entry_claims(Seq::<(String, Json)>::empty()) == Some(Seq::<(Pid, ClaimValueData)>::empty()));
    if let Some(v) = snak_claims(e.0@, members(e.1)) {
        assert(Seq::<(Pid, ClaimValueData)>::empty() + v =~= v);
    }
}

/// A group whose `snaks` object has two properties `p1: [s1]` and `p2: [s2]` that
/// both read holds the claim of `p1` and then that of `p2`.
pub proof fn lemma_group_two_properties(
    entries: Seq<(String, Json)>,
    s1: Json,
    s2: Json,
    q1: Pid,
    q2: Pid,
    d1: ClaimValueData,
    d2: ClaimValueData,
)
    requires
        entries.len() == 2,
        members(entries[0].1) == seq![s1],
        members(entries[1].1) == seq![s2],
        snak_spec(s1) == Some(Ok::<ClaimValueData, EntityError>(d1)),
        snak_spec(s2) == Some(Ok::<ClaimValueData, EntityError>(d2)),
        pid_key_spec(entries[0].0@) == Some(q1),
        pid_key_spec(entries[1].0@) == Some(q2),
    ensures
        entry_claims(entries) == Some(seq![(q1, d1), (q2, d2)]),
{
    let e1 = entries[0];
    let e2 = entries[1];
    assert(entries =~= seq![e1] + seq![e2]);
    lemma_entry_claims_concat(seq![e1], seq![e2]);
    lemma_entry_claims_one(e1);
    lemma_entry_claims_one(e2);
    lemma_snak_claims_one(e1.0@, s1);
    lemma_snak_claims_one(e2.0@, s2);
    assert(seq![(q1, d1)] + seq![(q2, d2)] =~= seq![(q1, d1), (q2, d2)]);
}

/// The reference groups of two runs of groups are those of the first followed by
/// those of the second.
pub proof fn lemma_reference_groups_concat(a: Seq<Json>, b: Seq<Json>)
    ensures
        reference_groups(a + b) == match (reference_groups(a), reference_groups(b)) {
            (Some(x), Some(y)) => Some(x + y),
            _ => None,
        },
    decreases b.len(),
{
    if b.len() == 0 {
        assert(a + b =~= a);
        if let Some(x) = reference_groups(a) {
            assert(x + Seq::<Seq<(Pid, ClaimValueData)>>::empty() =~= x);
        }
    } else {
        let b0 = b.drop_last();
        lemma_reference_groups_concat(a, b0);
        assert((a + b).drop_last() =~= a + b0);
        assert((a + b).last() == b.last());
        if let (Some(x), Some(y)) = (reference_groups(a), reference_groups(b0)) {
            if let Some(g) = group_claims(b.last()) {
                assert((x + y).push(g) =~= x + y.push(g));
            }
        }
    }
}

/// One reference group gives one list of claims: those of its `snaks` entries.
pub proof fn lemma_reference_groups_one(g: Json)
    ensures
        reference_groups(seq![g]) == match entry_claims(object_entries_of(g)) {
            None => None,
            Some(c) => Some(seq![c]),
        },
{
    let s = seq![g];
    assert(s.drop_last() =~= Seq::<Json>::empty());
    assert(s.last() == g);
    assert(reference_groups(Seq::<Json>::empty()) == Some(Seq::<Seq<(Pid, ClaimValueData)>>::empty()));
    assert(group_claims(g) == entry_claims(object_entries_of(g)));
    if let Some(c) = group_claims(g) {
        assert(Seq::<Seq<(Pid, ClaimValueData)>>::empty().push(c) =~= seq![c]);
    }
}

/// The entries of a reference group's `snaks` object.
pub open spec fn object_entries_of(g: Json) -> Seq<(String, Json)> {
    match g.prop("snaks"@) {
        Json::Object(e) => e@,
        _ => Seq::empty(),
    }
}

/// Qualifiers of two runs of properties: a panic in the first run is a panic, a
/// dropped statement in the first run drops it, and otherwise the claims are those
/// of the first run followed by the outcome of the second.
pub proof fn lemma_qualifier_entries_concat(a: Seq<(String, Json)>, b: Seq<(String, Json)>)
    ensures
        qualifier_entries(a + b) == match qualifier_entries(a) {
            None => None,
            Some(None) => Some(None),
            Some(Some(x)) => match qualifier_entries(b) {
                None => None,
                Some(None) => Some(None),
                Some(Some(y)) => Some(Some(x + y)),
            },
        },
    decreases b.len(),
{
    if b.len() == 0 {
        assert(a + b =~= a);
        if let Some(Some(x)) = qualifier_entries(a) {
            assert(x + Seq::<(Pid, ClaimValueData)>::empty() =~= x);
        }
    } else {
        let b0 = b.drop_last();
        lemma_qualifier_entries_concat(a, b0);
        assert((a + b).drop_last() =~= a + b0);
        assert((a + b).last() == b.last());
        if let (Some(Some(x)), Some(Some(y))) = (qualifier_entries(a), qualifier_entries(b0)) {
            if let Json::Array(snaks) = b.last().1 {
                if let Some(v) = snak_claims(b.last().0@, snaks@) {
                    assert((x + y) + v =~= x + (y + v));
                }
            }
        }
    }
}

/// One qualifier property gives the claims of its snaks where it holds an array,
/// and drops the statement otherwise.
pub proof fn lemma_qualifier_entries_one(e: (String, Json))
    ensures
        qualifier_entries(seq![e]) == match e.1 {
            Json::Array(snaks) => match snak_claims(e.0@, snaks@) {
                None => None,
                Some(v) => Some(Some(v)),
            },
            _ => Some(None::<Seq<(Pid, ClaimValueData)>>),
        },
{
    let s = seq![e];
    assert(s.drop_last() =~= Seq::<(String, Json)>::empty());
    assert(s.last() == e);
    assert(qualifier_entries(Seq::<(String, Json)>::empty()) == Some(Some(Seq::<(Pid, ClaimValueData)>::empty())));
    if let Json::Array(snaks) = e.1 {
        if let Some(v) = snak_claims(e.0@, snaks@) {
            assert(Seq::<(Pid, ClaimValueData)>::empty() + v =~= v);
        }
    }
}

// ---------------------------------------------------------------------------
// Quantities
// ---------------------------------------------------------------------------

/// A quantity snak whose amount reads holds that amount, the lower bound read from
/// `lowerBound`, the upper bound read from `upperBound` (each absent where it does
/// not read) and the unit read from `unit` (absent where it is no entity IRI).
pub proof fn lemma_quantity_snak(snak: Json, datatype: String, snaktype: String, ty: String, amount: WbNumber)
    requires
        snak.prop("datatype"@).string() == Some(datatype),
        snak.prop("snaktype"@).string() == Some(snaktype),
        snaktype@ == "value"@,
        snak.prop("datavalue"@).prop("type"@).string() == Some(ty),
        ty@ == "quantity"@,
        wb_number_spec(snak.prop("datavalue"@).prop("value"@).prop("amount"@)) == Ok::<WbNumber, EntityError>(amount),
    ensures
        ({
            let v = snak.prop("datavalue"@).prop("value"@);
            snak_spec(snak) matches Some(Ok(ClaimValueData::Quantity { amount: a, lower_bound: lb, upper_bound: ub, unit: u }))
            && a == amount
            && (match wb_number_spec(v.prop("lowerBound"@)) {
                Ok(n) => lb == Some(n),
                Err(_) => lb is None,
            })
            && (match wb_number_spec(v.prop("upperBound"@)) {
                Ok(n) => ub == Some(n),
                Err(_) => ub is None,
            })
            && (match qid_spec(v.prop("unit"@)) {
                Ok(q) => u == Some(q),
                Err(_) => u is None,
            })
        }),
{
    reveal_strlit("quantity");
    reveal_strlit("string");
    reveal_strlit("wikibase-entityid");
    reveal_strlit("globecoordinate");
    assert("quantity"@ != "string"@) by {
        assert("quantity"@[0] != "string"@[0]);
    }
    assert("quantity"@ != "wikibase-entityid"@) by {
        assert("quantity"@[0] != "wikibase-entityid"@[0]);
    }
    assert("quantity"@ != "globecoordinate"@) by {
        assert("quantity"@[0] != "globecoordinate"@[0]);
    }
}

// ---------------------------------------------------------------------------
// Which statements are kept
// ---------------------------------------------------------------------------

/// A statement is dropped only for a rank that is neither normal nor preferred, a
/// main snak that does not read, or a qualifier property that holds no array.
pub proof fn lemma_statement_dropped_only_when(claim: Json, skip_id: bool)
    ensures
        claim_spec(claim, skip_id) == Some(None::<ClaimValueView>) ==> {
            ||| claim.prop("rank"@).string() matches Some(r) && r@ != "normal"@ && r@ != "preferred"@
            ||| snak_spec(claim.prop("mainsnak"@)) matches Some(Err(_))
            ||| qualifiers_spec(claim.prop("qualifiers"@)) == Some(None::<Seq<(Pid, ClaimValueData)>>)
        },
{
    reveal_strlit("deprecated");
    reveal_strlit("normal");
    reveal_strlit("preferred");
    assert("normal"@ != "deprecated"@) by {
        assert("normal"@.len() != "deprecated"@.len());
    }
    assert("preferred"@ != "deprecated"@) by {
        assert("preferred"@.len() != "deprecated"@.len());
    }
}

/// A statement of rank normal or preferred whose main snak reads as `d`, whose
/// references and qualifiers read and that has an id (or `skip_id`) is kept, with
/// data `d`, its rank, its id (empty with `skip_id`), its qualifiers and references.
pub proof fn lemma_statement_kept(claim: Json, skip_id: bool, r: String, d: ClaimValueData,
    refs: Seq<Seq<(Pid, ClaimValueData)>>, quals: Seq<(Pid, ClaimValueData)>, id: String)
    requires
        claim.prop("rank"@).string() == Some(r),
        r@ == "normal"@ || r@ == "preferred"@,
        snak_spec(claim.prop("mainsnak"@)) == Some(Ok::<ClaimValueData, EntityError>(d)),
        references_spec(claim.prop("references"@)) == Some(refs),
        qualifiers_spec(claim.prop("qualifiers"@)) == Some(Some(quals)),
        skip_id || claim.prop("id"@).string() == Some(id),
    ensures
        claim_spec(claim, skip_id) == Some(Some::<ClaimValueView>((
            d,
            if r@ == "normal"@ { Rank::Normal } else { Rank::Preferred },
            if skip_id { Seq::<char>::empty() } else { id@ },
            quals,
            refs,
        ))),
{
    reveal_strlit("deprecated");
    reveal_strlit("normal");
    reveal_strlit("preferred");
    assert("normal"@ != "deprecated"@) by {
        assert("normal"@.len() != "deprecated"@.len());
    }
    assert("preferred"@ != "deprecated"@) by {
        assert("preferred"@.len() != "deprecated"@.len());
    }
    assert("preferred"@ != "normal"@) by {
        assert("preferred"@.len() != "normal"@.len());
    }
}

// ---------------------------------------------------------------------------
// The other kinds of datavalue
// ---------------------------------------------------------------------------

/// `snak` is a snak of type `value` with a string datatype and a datavalue whose
/// `type` is `ty`.
pub open spec fn value_snak(snak: Json, ty: Seq<char>) -> bool {
    &&& snak.prop("datatype"@).string() is Some
    &&& snak.prop("snaktype"@).string() matches Some(st) && st@ == "value"@
    &&& snak.prop("datavalue"@).prop("type"@).string() matches Some(t) && t@ == ty
}

/// The `value` object of a snak's datavalue.
pub open spec fn snak_value(snak: Json) -> Json {
    snak.prop("datavalue"@).prop("value"@)
}

/// The kinds of datavalue are told apart by their first character.
proof fn lemma_datavalue_types_distinct()
    ensures
        "string"@[0] == 's',
        "wikibase-entityid"@[0] == 'w',
        "globecoordinate"@[0] == 'g',
        "quantity"@[0] == 'q',
        "time"@[0] == 't',
        "monolingualtext"@[0] == 'm',
        "string"@.len() > 0,
        "wikibase-entityid"@.len() > 0,
        "globecoordinate"@.len() > 0,
        "quantity"@.len() > 0,
        "time"@.len() > 0,
        "monolingualtext"@.len() > 0,
{
    reveal_strlit("string");
    reveal_strlit("wikibase-entityid");
    reveal_strlit("globecoordinate");
    reveal_strlit("quantity");
    reveal_strlit("time");
    reveal_strlit("monolingualtext");
}

/// A globe coordinate reads its latitude, longitude, precision and globe from the
/// fields of those names, and fails with the first of them that does not read.
pub proof fn lemma_globecoordinate_snak(snak: Json)
    requires
        value_snak(snak, "globecoordinate"@),
    ensures
        ({
            let v = snak_value(snak);
            let lat = wb_number_spec(v.prop("latitude"@));
            let lon = wb_number_spec(v.prop("longitude"@));
            let pr = wb_number_spec(v.prop("precision"@));
            let gl = qid_spec(v.prop("globe"@));
            snak_spec(snak) == Some(
                if lat is Err {
                    Err::<ClaimValueData, EntityError>(lat->Err_0)
                } else if lon is Err {
                    Err(lon->Err_0)
                } else if pr is Err {
                    Err(pr->Err_0)
                } else if gl is Err {
                    Err(gl->Err_0)
                } else {
                    Ok(ClaimValueData::GlobeCoordinate { lat: lat->Ok_0, lon: lon->Ok_0, precision: pr->Ok_0, globe: gl->Ok_0 })
                },
            )
        }),
{
    lemma_datavalue_types_distinct();
    assert("globecoordinate"@ != "string"@);
    assert("globecoordinate"@ != "wikibase-entityid"@);
}

/// A time value reads its date-time from `time` and its precision from
/// `precision`; a time that is no string is an error, a time that does not read
/// gives its error, and a precision that does not read panics.
pub proof fn lemma_time_snak(snak: Json)
    requires
        value_snak(snak, "time"@),
    ensures
        ({
            let v = snak_value(snak);
            match v.prop("time"@).string() {
                None => snak_spec(snak) == Some(Err::<ClaimValueData, EntityError>(EntityError::ExpectedString)),
                Some(t) => match wb_time_spec(t@) {
                    None => snak_spec(snak) is None,
                    Some(Err(e)) => snak_spec(snak) == Some(Err::<ClaimValueData, EntityError>(e)),
                    Some(Ok(dt)) => match wb_number_spec(v.prop("precision"@)) {
                        Err(_) => snak_spec(snak) is None,
                        Ok(p) => snak_spec(snak) == Some(Ok::<ClaimValueData, EntityError>(ClaimValueData::DateTime { date_time: dt, precision: p })),
                    },
                },
            }
        }),
{
    lemma_datavalue_types_distinct();
    assert("time"@ != "string"@);
    assert("time"@ != "wikibase-entityid"@);
    assert("time"@ != "globecoordinate"@);
    assert("time"@ != "quantity"@);
}

/// A monolingual text holds the `text` and `language` strings of its value.
pub proof fn lemma_monolingual_snak(snak: Json, text: String, lang: String)
    requires
        value_snak(snak, "monolingualtext"@),
        snak_value(snak).prop("text"@).string() == Some(text),
        snak_value(snak).prop("language"@).string() == Some(lang),
    ensures
        snak_spec(snak) == Some(Ok::<ClaimValueData, EntityError>(ClaimValueData::MonolingualText { text, lang })),
{
    lemma_datavalue_types_distinct();
    assert("monolingualtext"@ != "string"@);
    assert("monolingualtext"@ != "wikibase-entityid"@);
    assert("monolingualtext"@ != "globecoordinate"@);
    assert("monolingualtext"@ != "quantity"@);
    assert("monolingualtext"@ != "time"@);
}

/// A string value is read into the variant that its datatype names, holding the
/// string itself.
pub proof fn lemma_string_snak(snak: Json, s: String, dt: String)
    requires
        value_snak(snak, "string"@),
        snak.prop("datatype"@).string() == Some(dt),
        snak_value(snak).string() == Some(s),
    ensures
        dt@ == "string"@ ==> snak_spec(snak) == Some(Ok::<ClaimValueData, EntityError>(ClaimValueData::Stringg(s))),
        dt@ == "url"@ ==> snak_spec(snak) == Some(Ok::<ClaimValueData, EntityError>(ClaimValueData::Url(s))),
        dt@ == "external-id"@ ==> snak_spec(snak) == Some(Ok::<ClaimValueData, EntityError>(ClaimValueData::ExternalID(s))),
        dt@ == "commonsMedia"@ ==> snak_spec(snak) == Some(Ok::<ClaimValueData, EntityError>(ClaimValueData::CommonsMedia(s))),
        dt@ == "math"@ ==> snak_spec(snak) == Some(Ok::<ClaimValueData, EntityError>(ClaimValueData::MathExpr(s))),
        dt@ == "geo-shape"@ ==> snak_spec(snak) == Some(Ok::<ClaimValueData, EntityError>(ClaimValueData::GeoShape(s))),
        dt@ == "musical-notation"@ ==> snak_spec(snak) == Some(Ok::<ClaimValueData, EntityError>(ClaimValueData::MusicNotation(s))),
        dt@ == "tabular-data"@ ==> snak_spec(snak) == Some(Ok::<ClaimValueData, EntityError>(ClaimValueData::TabularData(s))),
{
    reveal_strlit("string");
    reveal_strlit("url");
    reveal_strlit("external-id");
    reveal_strlit("commonsMedia");
    reveal_strlit("math");
    reveal_strlit("geo-shape");
    reveal_strlit("musical-notation");
    reveal_strlit("tabular-data");
    // Lengths 6, 3, 11, 12, 4, 9, 16, 12; the two of length 12 differ at the start.
    assert("string"@.len() == 6);
    assert("url"@.len() == 3);
    assert("external-id"@.len() == 11);
    assert("commonsMedia"@.len() == 12);
    assert("math"@.len() == 4);
    assert("geo-shape"@.len() == 9);
    assert("musical-notation"@.len() == 16);
    assert("tabular-data"@.len() == 12);
    assert("commonsMedia"@ != "tabular-data"@) by {
        assert("commonsMedia"@[0] != "tabular-data"@[0]);
    }
}

// ---------------------------------------------------------------------------
// Integer literals
// ---------------------------------------------------------------------------

/// A run of digits, with or without a leading `+`, reads as its value where that is
/// in range and not at all otherwise; with a leading `-` it reads as the negated
/// value for a signed type, and not at all for an unsigned one; a character that is
/// not a digit, other than a leading sign, makes it unreadable.
pub proof fn lemma_integer_literal(d: Seq<char>, min: int, max: int)
    requires
        d.len() >= 1,
        all_digits(d),
        min <= 0 <= max,
    ensures
        parse_int_spec(d, min, max) == (if digits_value(d) <= max {
            Some(digits_value(d) as int)
        } else {
            None
        }),
        parse_int_spec(seq!['+'] + d, min, max) == parse_int_spec(d, min, max),
        min < 0 ==> parse_int_spec(seq!['-'] + d, min, max) == (if min <= -digits_value(d) {
            Some(-digits_value(d))
        } else {
            None
        }),
        min == 0 ==> parse_int_spec(seq!['-'] + d, min, max) is None,
        forall|i: int, c: char| 0 <= i < d.len() && !is_digit(c) && (i > 0 || (c != '+' && c != '-')) ==> #[trigger] parse_int_spec(d.update(i, c), min, max) is None,
{
    assert(is_digit(d[0]));
    assert((seq!['+'] + d).drop_first() =~= d);
    assert((seq!['-'] + d).drop_first() =~= d);
    assert((seq!['-'] + d)[1] == d[0]);
    assert((seq!['-'] + d)[0] == '-');
    assert(!is_digit('-'));
    assert forall|i: int, c: char| 0 <= i < d.len() && !is_digit(c) && (i > 0 || (c != '+' && c != '-')) implies #[trigger] parse_int_spec(d.update(i, c), min, max) is None by {
        let u = d.update(i, c);
        if i == 0 {
            assert(u[0] == c);
        } else {
            assert(u[i] == c);
            assert(u.drop_first()[i - 1] == c);
        }
    }
}

// ---------------------------------------------------------------------------
// Float literals
// ---------------------------------------------------------------------------

/// Decimal numbers are read as floats: digits, with an optional sign, fraction and
/// exponent (`e` or `E`, with an optional sign).
pub proof fn lemma_float_forms(a: Seq<char>, b: Seq<char>, c: Seq<char>)
    requires
        a.len() >= 1,
        all_digits(a),
        all_digits(b),
        c.len() >= 1,
        all_digits(c),
    ensures
        float_literal(a),
        float_literal(seq!['-'] + a),
        float_literal(seq!['+'] + a + seq!['.'] + b),
        float_literal(seq!['.'] + a),
        float_literal(a + seq!['e'] + c),
        float_literal(a + seq!['.'] + b + seq!['E', '-'] + c),
{
    assert(is_digit(a[0]));
    assert(is_digit(c[0]));
    // a
    assert(unsigned_part(a) == a);
    assert(a.take(a.len() as int) =~= a);
    assert(mantissa_ok(a.take(a.len() as int)));
    // -a
    assert((seq!['-'] + a).drop_first() =~= a);
    // +a.b
    let m = a + seq!['.'] + b;
    assert(seq!['+'] + a + seq!['.'] + b =~= seq!['+'] + m);
    assert((seq!['+'] + m).drop_first() =~= m);
    assert((seq!['+'] + m)[0] == '+');
    assert(m.take(a.len() as int) =~= a);
    assert(m.skip(a.len() as int + 1) =~= b);
    assert(m[a.len() as int] == '.');
    assert(m.take(m.len() as int) =~= m);
    assert(mantissa_ok(m.take(m.len() as int)));
    // .a
    let f = seq!['.'] + a;
    assert(unsigned_part(f) == f);
    assert(f.take(0) =~= Seq::<char>::empty());
    assert(f.skip(1) =~= a);
    assert(f[0] == '.');
    assert(f.take(f.len() as int) =~= f);
    assert(mantissa_ok(f.take(f.len() as int)));
    // a e c
    let x = a + seq!['e'] + c;
    assert(unsigned_part(x) == x);
    assert(x.take(a.len() as int) =~= a);
    assert(x[a.len() as int] == 'e');
    assert(x.skip(a.len() as int + 1) =~= c);
    assert(unsigned_part(c) == c);
    assert(mantissa_ok(x.take(a.len() as int)));
    // a.b E- c
    let y = a + seq!['.'] + b + seq!['E', '-'] + c;
    let k: int = a.len() as int + 1 + b.len() as int;
    assert(unsigned_part(y) == y);
    assert(y.take(k) =~= m);
    assert(y[k] == 'E');
    assert(to_lower('E') == 'e');
    assert(y.skip(k + 1) =~= seq!['-'] + c);
    assert(unsigned_part(seq!['-'] + c) =~= c);
    assert(mantissa_ok(y.take(k)));
}

/// The characters of a mantissa are digits and dots.
proof fn lemma_mantissa_chars(m: Seq<char>, i: int)
    requires
        mantissa_ok(m),
        0 <= i < m.len(),
    ensures
        is_digit(m[i]) || m[i] == '.',
{
    if !(m.len() >= 1 && all_digits(m)) {
        let d = choose|d: int|
            0 <= d < m.len() && m.len() >= 2 && #[trigger] m[d] == '.' && all_digits(m.take(d))
                && all_digits(m.skip(d + 1));
        if i < d {
            assert(is_digit(m.take(d)[i]));
        } else if i > d {
            assert(is_digit(m.skip(d + 1)[i - d - 1]));
        }
    }
}

/// The characters of an exponent are digits, after an optional sign.
proof fn lemma_exponent_chars(x: Seq<char>, i: int)
    requires
        exponent_ok(x),
        0 <= i < x.len(),
    ensures
        is_digit(x[i]) || (i == 0 && is_sign(x[i])),
{
    if x.len() > 0 && is_sign(x[0]) {
        if i > 0 {
            assert(is_digit(unsigned_part(x)[i - 1]));
        }
    } else {
        assert(is_digit(unsigned_part(x)[i]));
    }
}

/// A number with a space in it does not read as a float: leading and trailing
/// whitespace is refused as anything else that is outside the grammar.
pub proof fn lemma_float_no_space(s: Seq<char>, j: int)
    requires
        0 <= j < s.len(),
        s[j] == ' ',
    ensures
        !float_literal(s),
{
    let b = unsigned_part(s);
    let jb = if s.len() > 0 && is_sign(s[0]) {
        j - 1
    } else {
        j
    };
    assert(0 <= jb < b.len() && b[jb] == ' ') by {
        if s.len() > 0 && is_sign(s[0]) {
            assert(j != 0);
            assert(b[j - 1] == s[j]);
        }
    }
    assert(to_lower(' ') == ' ');
    assert(!lower_eq(b, seq!['i', 'n', 'f'])) by {
        if b.len() == 3 {
            assert(to_lower(b[jb]) != seq!['i', 'n', 'f'][jb]);
        }
    }
    assert(!lower_eq(b, seq!['i', 'n', 'f', 'i', 'n', 'i', 't', 'y'])) by {
        if b.len() == 8 {
            assert(to_lower(b[jb]) != seq!['i', 'n', 'f', 'i', 'n', 'i', 't', 'y'][jb]);
        }
    }
    assert(!lower_eq(b, seq!['n', 'a', 'n'])) by {
        if b.len() == 3 {
            assert(to_lower(b[jb]) != seq!['n', 'a', 'n'][jb]);
        }
    }
    if number_ok(b) {
        let k = choose|k: int|
            0 <= k <= b.len() && mantissa_ok(#[trigger] b.take(k)) && (k == b.len() || (to_lower(
                b[k],
            ) == 'e' && exponent_ok(b.skip(k + 1))));
        if jb < k {
            lemma_mantissa_chars(b.take(k), jb);
            assert(b.take(k)[jb] == ' ');
        } else if jb == k {
            assert(k < b.len());
        } else {
            lemma_exponent_chars(b.skip(k + 1), jb - k - 1);
            assert(b.skip(k + 1)[jb - k - 1] == ' ');
        }
    }
}

} // verus!
