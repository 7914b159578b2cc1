//! Object identifiers as the ground segment spells them ("SAT-Alpha-04", "DEB-99421").

use vstd::prelude::*;

verus! {

/// The characters of a string slice, in order.
pub fn chars_of(s: &str) -> (out: Vec<char>)
    ensures
        out@ == s@,
{
    let mut out: Vec<char> = Vec::new();
    for c in it: s.chars()
        invariant
            out@ == it.seq().take(it.index() as int),
    {
        out.push(c);
    }
    out
}

/// `s` begins with the three characters `S`, `A`, `T`.
pub open spec fn starts_with_sat(s: Seq<char>) -> bool {
    &&& s.len() >= 3
    &&& s[0] == 'S'
    &&& s[1] == 'A'
    &&& s[2] == 'T'
}

/// The text after the last `-` of `s` (all of `s` when it holds no `-`).
pub open spec fn last_segment(s: Seq<char>) -> Seq<char>
    decreases s.len(),
{
    if s.len() == 0 {
        s
    } else if s.last() == '-' {
        Seq::empty()
    } else {
        last_segment(s.drop_last()).push(s.last())
    }
}

pub open spec fn is_ascii_digit(c: char) -> bool {
    48 <= (c as u32) && (c as u32) <= 57
}

pub open spec fn digit_value(c: char) -> nat {
    ((c as u32) - 48) as nat
}

pub open spec fn all_digits(d: Seq<char>) -> bool {
    forall|i: int| 0 <= i < d.len() ==> is_ascii_digit(#[trigger] d[i])
}

/// The number that a string of decimal digits spells.
pub open spec fn decimal_value(d: Seq<char>) -> nat
    decreases d.len(),
{
    if d.len() == 0 {
        0
    } else {
        decimal_value(d.drop_last()) * 10 + digit_value(d.last())
    }
}

/// The digits of an unsigned decimal literal: one leading `+` is allowed.
pub open spec fn unsigned_digits(t: Seq<char>) -> Seq<char> {
    if t.len() > 0 && t[0] == '+' {
        t.drop_first()
    } else {
        t
    }
}

/// What std's `u32::from_str` accepts: an optional `+`, then one or more
/// ASCII digits spelling a value that fits in 32 bits.
pub open spec fn parse_u32(t: Seq<char>) -> Option<u32> {
    let d = unsigned_digits(t);
    if d.len() > 0 && all_digits(d) && decimal_value(d) <= u32::MAX {
        Some(decimal_value(d) as u32)
    } else {
        None
    }
}

/// The numeric id and satellite flag carried by an API id string.
pub open spec fn api_id(s: Seq<char>) -> (u32, bool) {
    let numeric = match parse_u32(last_segment(s)) {
        Some(v) => v,
        None => 0u32,
    };
    (numeric, starts_with_sat(s))
}

proof fn lemma_decimal_prefix_le(d: Seq<char>, m: int)
    requires
        0 <= m <= d.len(),
    ensures
        decimal_value(d.take(m)) <= decimal_value(d),
    decreases d.len(),
{
    if m < d.len() {
        assert(d.drop_last().take(m) =~= d.take(m));
        lemma_decimal_prefix_le(d.drop_last(), m);
    } else {
        assert(d.take(m) =~= d);
    }
}

/// Parses `v[from..]` as std's `u32::from_str` does; 0 when that fails.
fn parse_u32_or_zero(v: &Vec<char>, from: usize) -> (r: u32)
    requires
        from <= v@.len(),
    ensures
        r == (match parse_u32(v@.subrange(from as int, v@.len() as int)) {
            Some(x) => x,
            None => 0u32,
        }),
{
    let n = v.len();
    let ghost t = v@.subrange(from as int, n as int);
    let mut k = from;
    if k < n && v[k] == '+' {
        k = k + 1;
    }
    let ghost d = v@.subrange(k as int, n as int);
    assert(unsigned_digits(t) =~= d);
    if k == n {
        return 0;
    }
    let start = k;
    let mut acc: u64 = 0;
    while k < n
        invariant
            start <= k <= n,
            n == v@.len(),
            start < n,
            d == v@.subrange(start as int, n as int),
            unsigned_digits(t) == d,
            t == v@.subrange(from as int, n as int),
            all_digits(v@.subrange(start as int, k as int)),
            acc == decimal_value(v@.subrange(start as int, k as int)),
            acc <= u32::MAX,
        decreases n - k,
    {
        let c = v[k];
        let ghost pre = v@.subrange(start as int, k as int);
        let ghost next = v@.subrange(start as int, k + 1);
        assert(next.drop_last() =~= pre);
        let code = c as u32;
        if code < 48 || code > 57 {
            assert(d[k - start] == c);
            return 0;
        }
        let digit = (code - 48) as u64;
        let grown = acc * 10 + digit;
        assert(decimal_value(next) == grown);
        if grown > 4294967295 {
            assert(d.take(k + 1 - start) =~= next);
            proof {
                lemma_decimal_prefix_le(d, k + 1 - start);
            }
            return 0;
        }
        acc = grown;
        k = k + 1;
        assert forall|i: int| 0 <= i < next.len() implies is_ascii_digit(#[trigger] next[i]) by {
            if i < pre.len() {
                assert(next[i] == pre[i]);
            }
        }
    }
    assert(v@.subrange(start as int, k as int) =~= d);
    acc as u32
}

/// Splits an API id into its numeric id (the last dash-separated segment,
/// 0 when that is not a `u32`) and whether it names a satellite (`SAT` prefix).
pub fn parse_api_id(string_id: &str) -> (r: (u32, bool))
    ensures
        r == api_id(string_id@),
{
    let v = chars_of(string_id);
    let n = v.len();
    let is_satellite = n >= 3 && v[0] == 'S' && v[1] == 'A' && v[2] == 'T';
    let mut start: usize = 0;
    let mut i: usize = 0;
    while i < n
        invariant
            n == v@.len(),
            start <= i <= n,
            last_segment(v@.take(i as int)) == v@.subrange(start as int, i as int),
        decreases n - i,
    {
        let ghost pre = v@.take(i as int);
        assert(v@.take(i + 1).drop_last() =~= pre);
        if v[i] == '-' {
            start = i + 1;
            assert(v@.subrange(start as int, i + 1) =~= Seq::<char>::empty());
        } else {
            assert(v@.subrange(start as int, i + 1) =~= v@.subrange(start as int, i as int).push(
                v@[i as int],
            ));
        }
        i = i + 1;
    }
    assert(v@.take(n as int) =~= v@);
    let numeric = parse_u32_or_zero(&v, start);
    (numeric, is_satellite)
}

/// The ASCII lower-case code of `c`; other characters keep their code.
pub open spec fn ascii_lower_code(c: char) -> u32 {
    if 65 <= (c as u32) && (c as u32) <= 90 {
        ((c as u32) + 32) as u32
    } else {
        c as u32
    }
}

/// The two strings are equal when ASCII letters are compared without case.
pub open spec fn eq_ignore_ascii_case(a: Seq<char>, b: Seq<char>) -> bool {
    &&& a.len() == b.len()
    &&& forall|i: int| 0 <= i < a.len() ==> ascii_lower_code(#[trigger] a[i]) == ascii_lower_code(b[i])
}

/// The object type that marks a satellite in telemetry.
pub open spec fn satellite_word() -> Seq<char> {
    seq!['S', 'A', 'T', 'E', 'L', 'L', 'I', 'T', 'E']
}

fn ascii_lower(c: char) -> (r: u32)
    ensures
        r == ascii_lower_code(c),
{
    let code = c as u32;
    if code >= 65 && code <= 90 {
        code + 32
    } else {
        code
    }
}

/// Whether a telemetry object type reads "SATELLITE", in any ASCII case.
pub fn names_satellite_type(obj_type: &str) -> (r: bool)
    ensures
        r == eq_ignore_ascii_case(obj_type@, satellite_word()),
{
    let v = chars_of(obj_type);
    let w: Vec<char> = vec!['S', 'A', 'T', 'E', 'L', 'L', 'I', 'T', 'E'];
    assert(w@ =~= satellite_word());
    if v.len() != 9 {
        return false;
    }
    let mut i: usize = 0;
    while i < 9
        invariant
            v@.len() == 9,
            v@ == obj_type@,
            w@ == satellite_word(),
            i <= 9,
            forall|j: int| 0 <= j < i ==> ascii_lower_code(#[trigger] v@[j]) == ascii_lower_code(
                w@[j],
            ),
        decreases 9 - i,
    {
        if ascii_lower(v[i]) != ascii_lower(w[i]) {
            assert(w@[i as int] == satellite_word()[i as int]);
            assert(ascii_lower_code(obj_type@[i as int]) != ascii_lower_code(
                satellite_word()[i as int],
            ));
            return false;
        }
        i = i + 1;
    }
    assert forall|j: int| 0 <= j < v@.len() implies ascii_lower_code(#[trigger] v@[j])
        == ascii_lower_code(satellite_word()[j]) by {
        assert(w@[j] == satellite_word()[j]);
    }
    true
}

/// The numeric id of a telemetry object and whether it is a satellite: its
/// id has the `SAT` prefix, or its type reads "SATELLITE".
pub open spec fn object_identity(api: Seq<char>, obj_type: Seq<char>) -> (u32, bool) {
    (api_id(api).0, api_id(api).1 || eq_ignore_ascii_case(obj_type, satellite_word()))
}

/// Identifies a telemetry object from its API id and its declared type.
pub fn classify_object(api: &str, obj_type: &str) -> (r: (u32, bool))
    ensures
        r == object_identity(api@, obj_type@),
{
    let (numeric_id, id_says_satellite) = parse_api_id(api);
    let type_says_satellite = names_satellite_type(obj_type);
    (numeric_id, id_says_satellite || type_says_satellite)
}

proof fn lemma_last_segment_after_dash(p: Seq<char>, d: Seq<char>)
    requires
        forall|i: int| 0 <= i < d.len() ==> #[trigger] d[i] != '-',
    ensures
        last_segment(p.push('-') + d) == d,
    decreases d.len(),
{
    let s = p.push('-') + d;
    if d.len() == 0 {
        assert(s =~= p.push('-'));
    } else {
        assert(s.drop_last() =~= p.push('-') + d.drop_last());
        assert(s.last() == d.last());
        lemma_last_segment_after_dash(p, d.drop_last());
        assert(d.drop_last().push(d.last()) =~= d);
    }
}

/// An API id names its object by the decimal number after its last `-`:
/// for any text before the dash, a segment of one or more ASCII digits that
/// fits in 32 bits gives that number, an empty segment or one holding a
/// character that is neither a digit nor a leading `+` gives 0. The id
/// marks a satellite exactly when it begins with `SAT`, whatever follows.
pub proof fn law_numeric_id_after_last_dash(p: Seq<char>, d: Seq<char>)
    requires
        forall|i: int| 0 <= i < d.len() ==> #[trigger] d[i] != '-',
    ensures
        d.len() > 0 && (forall|i: int| 0 <= i < d.len() ==> 48 <= (#[trigger] d[i] as u32) <= 57)
            && decimal_value(d) <= u32::MAX ==> api_id(p.push('-') + d).0 == decimal_value(d),
        d.len() == 0 ==> api_id(p.push('-') + d).0 == 0,
        (exists|i: int| 0 < i < d.len() && !(48 <= (#[trigger] d[i] as u32) <= 57)) ==> api_id(
            p.push('-') + d,
        ).0 == 0,
        api_id(p.push('-') + d).1 <==> ((p.push('-') + d).len() >= 3 && (p.push('-') + d)[0] == 'S' && (p.push(
            '-',
        ) + d)[1] == 'A' && (p.push('-') + d)[2] == 'T'),
{
    lemma_last_segment_after_dash(p, d);
    if d.len() > 0 && (forall|i: int| 0 <= i < d.len() ==> 48 <= (#[trigger] d[i] as u32) <= 57) {
        assert(d[0] != '+');
        assert(unsigned_digits(d) == d);
        assert(all_digits(d));
    }
    if exists|i: int| 0 < i < d.len() && !(48 <= (#[trigger] d[i] as u32) <= 57) {
        let i = choose|i: int| 0 < i < d.len() && !(48 <= (#[trigger] d[i] as u32) <= 57);
        let u = unsigned_digits(d);
        if d[0] == '+' {
            assert(u[i - 1] == d[i]);
        } else {
            assert(u[i] == d[i]);
        }
        assert(!all_digits(u));
    }
}

/// A telemetry object's numeric id comes from its API id alone, and it is a
/// satellite when its id begins with `SAT` or its type spells "SATELLITE" in
/// any mix of ASCII cases; an id without the prefix and a type of another
/// length is not a satellite.
pub proof fn law_object_identity(api: Seq<char>, obj_type: Seq<char>)
    ensures
        object_identity(api, obj_type).0 == api_id(api).0,
        api.len() >= 3 && api[0] == 'S' && api[1] == 'A' && api[2] == 'T' ==> object_identity(api, obj_type).1,
        obj_type.len() == 9 && (forall|i: int|
            0 <= i < 9 ==> #[trigger] obj_type[i] == seq!['S', 'A', 'T', 'E', 'L', 'L', 'I', 'T', 'E'][i]
                || obj_type[i] == seq!['s', 'a', 't', 'e', 'l', 'l', 'i', 't', 'e'][i]) ==> object_identity(
            api,
            obj_type,
        ).1,
        !(api.len() >= 3 && api[0] == 'S' && api[1] == 'A' && api[2] == 'T') && obj_type.len() != 9
            ==> !object_identity(api, obj_type).1,
{
    let upper = seq!['S', 'A', 'T', 'E', 'L', 'L', 'I', 'T', 'E'];
    let lower = seq!['s', 'a', 't', 'e', 'l', 'l', 'i', 't', 'e'];
    if obj_type.len() == 9 && (forall|i: int|
        0 <= i < 9 ==> #[trigger] obj_type[i] == upper[i] || obj_type[i] == lower[i]) {
        assert forall|i: int| 0 <= i < 9 implies ascii_lower_code(#[trigger] obj_type[i]) == ascii_lower_code(
            satellite_word()[i],
        ) by {
            assert(obj_type[i] == upper[i] || obj_type[i] == lower[i]);
            assert(satellite_word()[i] == upper[i]);
        }
    }
}

} // verus!
