//! Character-level text handling: integer and float literals, splitting, searching.
//!
//! Strings are handled as sequences of `char`s. Where the format cares about bytes
//! (slicing a `str` at a byte offset), the UTF-8 width of each `char` is taken into
//! account explicitly.
use vstd::prelude::*;

verus! {

// ---------------------------------------------------------------------------
// Characters
// ---------------------------------------------------------------------------

/// Number of bytes that the UTF-8 encoding of `c` takes (`char::len_utf8`).
pub open spec fn utf8_len(c: char) -> int {
    if (c as u32) < 0x80 {
        1
    } else if (c as u32) < 0x800 {
        2
    } else if (c as u32) < 0x10000 {
        3
    } else {
        4
    }
}

/// An ASCII decimal digit.
pub open spec fn is_digit(c: char) -> bool {
    '0' <= c && c <= '9'
}

/// The value of a decimal digit.
pub open spec fn digit_value(c: char) -> int {
    (c as u32) - ('0' as u32)
}

/// Every character of `s` is a decimal digit.
pub open spec fn all_digits(s: Seq<char>) -> bool {
    forall|i: int| 0 <= i < s.len() ==> #[trigger] is_digit(s[i])
}

/// `s` contains the character `c`.
pub open spec fn has_char(s: Seq<char>, c: char) -> bool {
    exists|i: int| 0 <= i < s.len() && s[i] == c
}

/// The value of a string of decimal digits (most significant first).
pub open spec fn digits_value(s: Seq<char>) -> nat
    decreases s.len(),
{
    if s.len() == 0 {
        0
    } else {
        (digits_value(s.drop_last()) * 10 + digit_value(s.last())) as nat
    }
}

/// Collects the characters of `s`.
pub fn chars_of(s: &str) -> (v: Vec<char>)
    ensures
        v@ == s@,
{
    let n = s.unicode_len();
    let mut v: Vec<char> = Vec::new();
    let mut i: usize = 0;
    while i < n
        invariant
            n == s@.len(),
            i <= n,
            v@ == s@.take(i as int),
        decreases n - i,
    {
        let c = s.get_char(i);
        v.push(c);
        i = i + 1;
        assert(v@ =~= s@.take(i as int));
    }
    assert(v@ =~= s@);
    v
}

/// Whether two strings hold the same characters.
pub fn str_eq(a: &str, b: &str) -> (r: bool)
    ensures
        r == (a@ == b@),
{
    let x = chars_of(a);
    let y = chars_of(b);
    chars_eq(x.as_slice(), y.as_slice())
}

/// Whether two character slices are equal.
pub fn chars_eq(a: &[char], b: &[char]) -> (r: bool)
    ensures
        r == (a@ == b@),
{
    if a.len() != b.len() {
        return false;
    }
    let mut i: usize = 0;
    while i < a.len()
        invariant
            a@.len() == b@.len(),
            i <= a@.len(),
            forall|j: int| 0 <= j < i ==> a@[j] == b@[j],
        decreases a.len() - i,
    {
        if a[i] != b[i] {
            return false;
        }
        i = i + 1;
    }
    assert(a@ =~= b@);
    true
}

/// Copies `s[from..to]`.
pub fn sub_chars(s: &[char], from: usize, to: usize) -> (v: Vec<char>)
    requires
        from <= to <= s@.len(),
    ensures
        v@ == s@.subrange(from as int, to as int),
{
    let mut v: Vec<char> = Vec::new();
    let mut i = from;
    while i < to
        invariant
            from <= i <= to <= s@.len(),
            v@ == s@.subrange(from as int, i as int),
        decreases to - i,
    {
        v.push(s[i]);
        i = i + 1;
        assert(v@ =~= s@.subrange(from as int, i as int));
    }
    v
}

// ---------------------------------------------------------------------------
// Integer literals (`str::parse` for the integer types, radix 10)
// ---------------------------------------------------------------------------

/// What `str::parse` gives for an integer type whose values are `min..=max`: an
/// optional `+` (or `-` where the type is signed) followed by at least one decimal
/// digit and nothing else, and a value in range.
pub open spec fn parse_int_spec(s: Seq<char>, min: int, max: int) -> Option<int> {
    if s.len() == 0 {
        None
    } else {
        let neg = s[0] == '-' && min < 0;
        let digits = if s[0] == '+' || neg {
            s.drop_first()
        } else {
            s
        };
        if digits.len() == 0 || !all_digits(digits) {
            None
        } else {
            let v = if neg {
                -digits_value(digits)
            } else {
                digits_value(digits) as int
            };
            if min <= v && v <= max {
                Some(v)
            } else {
                None
            }
        }
    }
}

/// `str::parse::<u64>`.
pub open spec fn parse_u64_spec(s: Seq<char>) -> Option<u64> {
    match parse_int_spec(s, 0, u64::MAX as int) {
        Some(v) => Some(v as u64),
        None => None,
    }
}

/// `str::parse::<u32>`.
pub open spec fn parse_u32_spec(s: Seq<char>) -> Option<u32> {
    match parse_int_spec(s, 0, u32::MAX as int) {
        Some(v) => Some(v as u32),
        None => None,
    }
}

/// `str::parse::<u16>`.
pub open spec fn parse_u16_spec(s: Seq<char>) -> Option<u16> {
    match parse_int_spec(s, 0, u16::MAX as int) {
        Some(v) => Some(v as u16),
        None => None,
    }
}

/// `str::parse::<i32>`.
pub open spec fn parse_i32_spec(s: Seq<char>) -> Option<i32> {
    match parse_int_spec(s, i32::MIN as int, i32::MAX as int) {
        Some(v) => Some(v as i32),
        None => None,
    }
}

/// Parses a decimal integer in `min..=max`, as `str::parse` does for such a type.
pub fn parse_int(s: &[char], min: i128, max: i128) -> (r: Option<i128>)
    requires
        -0x1_0000_0000_0000_0000 <= min <= 0,
        0 <= max <= 0xffff_ffff_ffff_ffff,
    ensures
        r is Some == parse_int_spec(s@, min as int, max as int) is Some,
        r is Some ==> r->0 == parse_int_spec(s@, min as int, max as int)->0,
{
    if s.len() == 0 {
        return None;
    }
    let neg = s[0] == '-' && min < 0;
    let start: usize = if s[0] == '+' || neg {
        1
    } else {
        0
    };
    let ghost digits = s@.skip(start as int);
    assert(digits =~= (if s@[0] == '+' || neg {
        s@.drop_first()
    } else {
        s@
    }));
    if start == s.len() {
        return None;
    }
    let bound: u128 = if neg {
        (-min) as u128
    } else {
        max as u128
    };
    // `acc` is the value of the digits read so far, capped at `bound + 1`.
    let mut acc: u128 = 0;
    let mut i: usize = start;
    while i < s.len()
        invariant
            start <= i <= s@.len(),
            digits == s@.skip(start as int),
            s@.len() > 0,
            neg == (s@[0] == '-' && min < 0),
            digits == (if s@[0] == '+' || neg {
                s@.drop_first()
            } else {
                s@
            }),
            bound <= 0x1_0000_0000_0000_0000,
            all_digits(s@.subrange(start as int, i as int)),
            acc == if digits_value(s@.subrange(start as int, i as int)) <= bound {
                digits_value(s@.subrange(start as int, i as int)) as int
            } else {
                bound + 1
            },
        decreases s.len() - i,
    {
        let c = s[i];
        if !('0' <= c && c <= '9') {
            assert(digits[i - start] == c);
            assert(!is_digit(digits[i - start]));
            assert(!all_digits(digits));
            return None;
        }
        let d: u128 = ((c as u32) - ('0' as u32)) as u128;
        let ghost prev = s@.subrange(start as int, i as int);
        let ghost next = s@.subrange(start as int, i + 1);
        assert(next.drop_last() =~= prev);
        assert(next.last() == c);
        if acc > bound {
            acc = bound + 1;
        } else {
            acc = acc * 10 + d;
            if acc > bound {
                acc = bound + 1;
            }
        }
        i = i + 1;
        assert forall|j: int| 0 <= j < next.len() implies #[trigger] is_digit(next[j]) by {
            if j < prev.len() {
                assert(next[j] == prev[j]);
            }
        }
    }
    assert(s@.subrange(start as int, s@.len() as int) =~= digits);
    if acc > bound {
        None
    } else if neg {
        Some(-(acc as i128))
    } else {
        Some(acc as i128)
    }
}

/// `str::parse::<u64>` on a character slice.
pub fn parse_u64(s: &[char]) -> (r: Option<u64>)
    ensures
        r == parse_u64_spec(s@),
{
    match parse_int(s, 0, 0xffff_ffff_ffff_ffff) {
        Some(v) => Some(v as u64),
        None => None,
    }
}

/// `str::parse::<u32>` on a character slice.
pub fn parse_u32(s: &[char]) -> (r: Option<u32>)
    ensures
        r == parse_u32_spec(s@),
{
    match parse_int(s, 0, 0xffff_ffff) {
        Some(v) => Some(v as u32),
        None => None,
    }
}

/// `str::parse::<u16>` on a character slice.
pub fn parse_u16(s: &[char]) -> (r: Option<u16>)
    ensures
        r == parse_u16_spec(s@),
{
    match parse_int(s, 0, 0xffff) {
        Some(v) => Some(v as u16),
        None => None,
    }
}

/// `str::parse::<i32>` on a character slice.
pub fn parse_i32(s: &[char]) -> (r: Option<i32>)
    ensures
        r == parse_i32_spec(s@),
{
    match parse_int(s, -0x8000_0000, 0x7fff_ffff) {
        Some(v) => Some(v as i32),
        None => None,
    }
}


// ---------------------------------------------------------------------------
// Splitting and searching (`str::split`)
// ---------------------------------------------------------------------------

/// The pieces of `s` between occurrences of `c`, as `str::split(c)` yields them:
/// always at least one piece; `n` occurrences give `n + 1` pieces.
pub open spec fn split_spec(s: Seq<char>, c: char) -> Seq<Seq<char>>
    decreases s.len(),
{
    if s.len() == 0 {
        seq![Seq::<char>::empty()]
    } else {
        let prev = split_spec(s.drop_last(), c);
        if s.last() == c {
            prev.push(Seq::<char>::empty())
        } else {
            prev.update(prev.len() - 1, prev.last().push(s.last()))
        }
    }
}

/// The views of a sequence of character vectors.
pub open spec fn views(v: Seq<Vec<char>>) -> Seq<Seq<char>> {
    v.map_values(|p: Vec<char>| p@)
}

/// `split_spec` always yields at least one piece, and no piece holds the separator.
pub proof fn lemma_split_spec(s: Seq<char>, c: char)
    ensures
        split_spec(s, c).len() >= 1,
        forall|k: int| 0 <= k < split_spec(s, c).len() ==> !has_char(#[trigger] split_spec(s, c)[k], c),
    decreases s.len(),
{
    if s.len() > 0 {
        lemma_split_spec(s.drop_last(), c);
        let prev = split_spec(s.drop_last(), c);
        if s.last() != c {
            let l = prev.last().push(s.last());
            assert forall|k: int| 0 <= k < split_spec(s, c).len() implies !has_char(#[trigger] split_spec(s, c)[k], c) by {
                if k == prev.len() - 1 {
                    assert(split_spec(s, c)[k] == l);
                    if has_char(l, c) {
                        let i = choose|i: int| 0 <= i < l.len() && l[i] == c;
                        assert(prev.last()[i] == c);
                        assert(has_char(prev[prev.len() - 1], c));
                    }
                } else {
                    assert(split_spec(s, c)[k] == prev[k]);
                }
            }
        } else {
            assert forall|k: int| 0 <= k < split_spec(s, c).len() implies !has_char(#[trigger] split_spec(s, c)[k], c) by {
                if k < prev.len() {
                    assert(split_spec(s, c)[k] == prev[k]);
                } else {
                    assert(split_spec(s, c)[k] =~= Seq::<char>::empty());
                }
            }
        }
    }
}

/// Splits `s` at every `c`, as `str::split(c)` does.
pub fn split_chars(s: &[char], c: char) -> (parts: Vec<Vec<char>>)
    ensures
        views(parts@) == split_spec(s@, c),
{
    let mut done: Vec<Vec<char>> = Vec::new();
    let mut cur: Vec<char> = Vec::new();
    let mut i: usize = 0;
    assert(s@.take(0) =~= Seq::<char>::empty());
    assert(views(done@).push(cur@) =~= split_spec(s@.take(0), c));
    while i < s.len()
        invariant
            i <= s@.len(),
            views(done@).push(cur@) == split_spec(s@.take(i as int), c),
        decreases s.len() - i,
    {
        let ghost before = s@.take(i as int);
        let ghost after = s@.take(i + 1);
        assert(after.drop_last() =~= before);
        assert(after.last() == s@[i as int]);
        proof {
            lemma_split_spec(before, c);
        }
        if s[i] == c {
            done.push(cur);
            cur = Vec::new();
            assert(views(done@).push(cur@) =~= split_spec(after, c));
        } else {
            let ghost old_cur = cur@;
            cur.push(s[i]);
            assert(views(done@).push(cur@) =~= split_spec(after, c));
        }
        i = i + 1;
    }
    assert(s@.take(s@.len() as int) =~= s@);
    let ghost last = cur@;
    done.push(cur);
    assert(views(done@) =~= split_spec(s@, c));
    done
}

/// `p` occurs in `s` at position `i`.
pub open spec fn occurs_at(s: Seq<char>, p: Seq<char>, i: int) -> bool {
    0 <= i && i + p.len() <= s.len() && s.subrange(i, i + p.len()) == p
}

/// The first position at or after `start` where `p` occurs in `s`.
pub open spec fn find_from(s: Seq<char>, p: Seq<char>, start: int) -> Option<int>
    decreases s.len() + 1 - start,
{
    if start < 0 || start + p.len() > s.len() {
        None
    } else if occurs_at(s, p, start) {
        Some(start)
    } else {
        find_from(s, p, start + 1)
    }
}

/// The second piece that `str::split(p)` yields for a non-empty pattern `p`: what
/// lies between the first occurrence of `p` and the next one (or the end).
pub open spec fn second_piece(s: Seq<char>, p: Seq<char>) -> Option<Seq<char>> {
    match find_from(s, p, 0) {
        None => None,
        Some(i) => {
            let start = i + p.len();
            match find_from(s, p, start) {
                None => Some(s.subrange(start, s.len() as int)),
                Some(j) => Some(s.subrange(start, j)),
            }
        },
    }
}

/// Whether `p` occurs in `s` at position `i`.
pub fn matches_at(s: &[char], p: &[char], i: usize) -> (r: bool)
    requires
        i <= s@.len(),
    ensures
        r == occurs_at(s@, p@, i as int),
{
    if p.len() > s.len() - i {
        return false;
    }
    let mut k: usize = 0;
    while k < p.len()
        invariant
            i + p@.len() <= s@.len(),
            s@.len() == s.len(),
            k <= p@.len(),
            forall|j: int| 0 <= j < k ==> s@[i + j] == p@[j],
        decreases p.len() - k,
    {
        if s[i + k] != p[k] {
            assert(s@.subrange(i as int, i + p@.len())[k as int] != p@[k as int]);
            return false;
        }
        k = k + 1;
    }
    assert(s@.subrange(i as int, i + p@.len()) =~= p@);
    true
}

/// The first position at or after `start` where `p` occurs in `s`.
pub fn find_chars(s: &[char], p: &[char], start: usize) -> (r: Option<usize>)
    requires
        start <= s@.len(),
    ensures
        r is Some == find_from(s@, p@, start as int) is Some,
        r is Some ==> r->0 == find_from(s@, p@, start as int)->0,
        r matches Some(i) ==> start <= i && occurs_at(s@, p@, i as int),
{
    if p.len() > s.len() - start {
        return None;
    }
    if p.len() == 0 {
        assert(s@.subrange(start as int, start as int) =~= p@);
        return Some(start);
    }
    let last = s.len() - p.len();
    let mut i = start;
    while i <= last
        invariant
            start <= i,
            i <= last + 1,
            last + p@.len() == s@.len(),
            s@.len() == s.len(),
            p@.len() >= 1,
            find_from(s@, p@, start as int) == find_from(s@, p@, i as int),
        decreases last + 1 - i,
    {
        if matches_at(s, p, i) {
            return Some(i);
        }
        i = i + 1;
    }
    None
}

// ---------------------------------------------------------------------------
// Float literals (`str::parse::<f64>`)
// ---------------------------------------------------------------------------

/// ASCII lower case.
pub open spec fn to_lower(c: char) -> char {
    if 'A' <= c && c <= 'Z' {
        ((c as u32) + 32) as char
    } else {
        c
    }
}

/// `s` equals the lower-case `word` when ASCII case is ignored.
pub open spec fn lower_eq(s: Seq<char>, word: Seq<char>) -> bool {
    s.len() == word.len() && forall|i: int| 0 <= i < s.len() ==> to_lower(#[trigger] s[i]) == word[i]
}

/// `+` or `-`.
pub open spec fn is_sign(c: char) -> bool {
    c == '+' || c == '-'
}

/// `s` without its leading sign, if it has one.
pub open spec fn unsigned_part(s: Seq<char>) -> Seq<char> {
    if s.len() > 0 && is_sign(s[0]) {
        s.drop_first()
    } else {
        s
    }
}

/// `Digit+ | Digit+ '.' Digit* | Digit* '.' Digit+`
pub open spec fn mantissa_ok(m: Seq<char>) -> bool {
    ||| m.len() >= 1 && all_digits(m)
    ||| exists|d: int|
        0 <= d < m.len() && m.len() >= 2 && #[trigger] m[d] == '.' && all_digits(m.take(d))
            && all_digits(m.skip(d + 1))
}

/// `Sign? Digit+`, the part after the `e` of an exponent.
pub open spec fn exponent_ok(x: Seq<char>) -> bool {
    let digits = unsigned_part(x);
    digits.len() >= 1 && all_digits(digits)
}

/// `Number ::= Mantissa Exp?` with `Exp ::= 'e' Sign? Digit+`.
pub open spec fn number_ok(b: Seq<char>) -> bool {
    exists|k: int|
        0 <= k <= b.len() && mantissa_ok(#[trigger] b.take(k)) && (k == b.len() || (to_lower(b[k])
            == 'e' && exponent_ok(b.skip(k + 1))))
}

/// The strings that `str::parse::<f64>` accepts, as its documentation gives them
/// (ASCII case ignored):
/// `Sign? ( 'inf' | 'infinity' | 'nan' | Number )`.
pub open spec fn float_literal(s: Seq<char>) -> bool {
    let b = unsigned_part(s);
    ||| lower_eq(b, seq!['i', 'n', 'f'])
    ||| lower_eq(b, seq!['i', 'n', 'f', 'i', 'n', 'i', 't', 'y'])
    ||| lower_eq(b, seq!['n', 'a', 'n'])
    ||| number_ok(b)
}

/// Whether `c`, in ASCII lower case, is `w`.
fn lower_is(c: char, w: char) -> (r: bool)
    ensures
        r == (to_lower(c) == w),
{
    if 'A' <= c && c <= 'Z' {
        (c as u32) + 32 == (w as u32)
    } else {
        c == w
    }
}

/// Whether `s` equals the lower-case `word`, ASCII case ignored.
fn lower_eq_exec(s: &[char], word: &[char]) -> (r: bool)
    ensures
        r == lower_eq(s@, word@),
{
    if s.len() != word.len() {
        return false;
    }
    let mut i: usize = 0;
    while i < s.len()
        invariant
            s@.len() == word@.len(),
            i <= s@.len(),
            forall|j: int| 0 <= j < i ==> to_lower(#[trigger] s@[j]) == word@[j],
        decreases s.len() - i,
    {
        if !lower_is(s[i], word[i]) {
            return false;
        }
        i = i + 1;
    }
    true
}

/// The first index in `from..to` whose character is not a digit, or `to`.
fn first_non_digit(s: &[char], from: usize, to: usize) -> (r: usize)
    requires
        from <= to <= s@.len(),
    ensures
        from <= r <= to,
        all_digits(s@.subrange(from as int, r as int)),
        r < to ==> !is_digit(s@[r as int]),
{
    let mut i = from;
    while i < to
        invariant
            from <= i <= to <= s@.len(),
            all_digits(s@.subrange(from as int, i as int)),
        decreases to - i,
    {
        if !('0' <= s[i] && s[i] <= '9') {
            return i;
        }
        let ghost prev = s@.subrange(from as int, i as int);
        i = i + 1;
        let ghost next = s@.subrange(from as int, i as int);
        assert forall|j: int| 0 <= j < next.len() implies #[trigger] is_digit(next[j]) by {
            if j < prev.len() {
                assert(next[j] == prev[j]);
            }
        }
    }
    i
}

/// Digits followed by a non-digit are not all digits.
proof fn lemma_not_all_digits(s: Seq<char>, i: int)
    requires
        0 <= i < s.len(),
        !is_digit(s[i]),
    ensures
        !all_digits(s),
{
}

fn mantissa_ok_exec(m: &[char]) -> (r: bool)
    ensures
        r == mantissa_ok(m@),
{
    let n = m.len();
    let d = first_non_digit(m, 0, n);
    assert(m@.subrange(0, d as int) =~= m@.take(d as int));
    if d == n {
        assert(m@.take(n as int) =~= m@);
        if n >= 1 {
            return true;
        }
        assert(!mantissa_ok(m@));
        return false;
    }
    proof {
        lemma_not_all_digits(m@, d as int);
    }
    if m[d] != '.' {
        assert forall|e: int|
            0 <= e < m@.len() && m@.len() >= 2 && #[trigger] m@[e] == '.' implies !(all_digits(
            m@.take(e)) && all_digits(m@.skip(e + 1))) by {
            if e < d {
                assert(is_digit(m@.take(d as int)[e]));
            } else if e > d {
                assert(m@.take(e)[d as int] == m@[d as int]);
                lemma_not_all_digits(m@.take(e), d as int);
            }
        }
        return false;
    }
    let e = first_non_digit(m, d + 1, n);
    assert(m@.subrange(d + 1, n as int) =~= m@.skip(d + 1));
    let r = e == n && n >= 2;
    if r {
        assert(m@.subrange(d + 1, e as int) =~= m@.skip(d + 1));
        assert(m@[d as int] == '.');
    } else {
        assert forall|f: int|
            0 <= f < m@.len() && m@.len() >= 2 && #[trigger] m@[f] == '.' implies !(all_digits(
            m@.take(f)) && all_digits(m@.skip(f + 1))) by {
            if f < d {
                assert(is_digit(m@.take(d as int)[f]));
            } else if f > d {
                assert(m@.take(f)[d as int] == m@[d as int]);
                lemma_not_all_digits(m@.take(f), d as int);
            } else if e < n {
                assert(m@.skip(f + 1)[e - d - 1] == m@[e as int]);
                lemma_not_all_digits(m@.skip(f + 1), e - d - 1);
            }
        }
    }
    r
}

fn exponent_ok_exec(x: &[char]) -> (r: bool)
    ensures
        r == exponent_ok(x@),
{
    let start: usize = if x.len() > 0 && (x[0] == '+' || x[0] == '-') {
        1
    } else {
        0
    };
    assert(x@.subrange(start as int, x@.len() as int) =~= unsigned_part(x@));
    let d = first_non_digit(x, start, x.len());
    proof {
        if d < x.len() {
            assert(unsigned_part(x@)[d - start] == x@[d as int]);
            lemma_not_all_digits(unsigned_part(x@), d - start);
        }
    }
    d == x.len() && start < x.len()
}

fn number_ok_exec(b: &[char]) -> (r: bool)
    ensures
        r == number_ok(b@),
{
    let n = b.len();
    let mut k: usize = 0;
    while k < n && !lower_is(b[k], 'e')
        invariant
            k <= n == b@.len(),
            forall|j: int| 0 <= j < k ==> to_lower(#[trigger] b@[j]) != 'e',
        decreases n - k,
    {
        k = k + 1;
    }
    let m = sub_chars(b, 0, k);
    assert(m@ =~= b@.take(k as int));
    let mant = mantissa_ok_exec(m.as_slice());
    let r = if k == n {
        mant
    } else {
        let x = sub_chars(b, k + 1, n);
        assert(x@ =~= b@.skip(k + 1));
        mant && exponent_ok_exec(x.as_slice())
    };
    // No other split point can work: a mantissa holds no `e`.
    assert forall|j: int|
        0 <= j <= b@.len() && mantissa_ok(#[trigger] b@.take(j)) && j != k implies !(j == b@.len()
        || (to_lower(b@[j]) == 'e' && exponent_ok(b@.skip(j + 1)))) by {
        if j < k {
            assert(to_lower(b@[j]) != 'e');
        } else {
            let t = b@.take(j);
            assert(t[k as int] == b@[k as int]);
            assert(to_lower(t[k as int]) == 'e');
            lemma_mantissa_no_e(t, k as int);
        }
    }
    r
}

/// A mantissa holds digits and a dot only, so no `e`.
proof fn lemma_mantissa_no_e(m: Seq<char>, k: int)
    requires
        mantissa_ok(m),
        0 <= k < m.len(),
    ensures
        to_lower(m[k]) != 'e',
{
    if m.len() >= 1 && all_digits(m) {
        assert(is_digit(m[k]));
    } else {
        let d = choose|d: int|
            0 <= d < m.len() && m.len() >= 2 && #[trigger] m[d] == '.' && all_digits(m.take(d))
                && all_digits(m.skip(d + 1));
        if k < d {
            assert(is_digit(m.take(d)[k]));
        } else if k > d {
            assert(is_digit(m.skip(d + 1)[k - d - 1]));
        }
    }
}

/// Whether `str::parse::<f64>` accepts `s`.
pub fn is_float_literal(s: &[char]) -> (r: bool)
    ensures
        r == float_literal(s@),
{
    let start: usize = if s.len() > 0 && (s[0] == '+' || s[0] == '-') {
        1
    } else {
        0
    };
    let b = sub_chars(s, start, s.len());
    assert(b@ =~= unsigned_part(s@));
    let inf = vec!['i', 'n', 'f'];
    let infinity = vec!['i', 'n', 'f', 'i', 'n', 'i', 't', 'y'];
    let nan = vec!['n', 'a', 'n'];
    assert(inf@ =~= seq!['i', 'n', 'f']);
    assert(infinity@ =~= seq!['i', 'n', 'f', 'i', 'n', 'i', 't', 'y']);
    assert(nan@ =~= seq!['n', 'a', 'n']);
    lower_eq_exec(b.as_slice(), inf.as_slice()) || lower_eq_exec(b.as_slice(), infinity.as_slice())
        || lower_eq_exec(b.as_slice(), nan.as_slice()) || number_ok_exec(b.as_slice())
}

} // verus!
