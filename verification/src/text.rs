//! Character and string primitives used by the search index: an exact model
//! of ASCII case mapping, whitespace trimming and decimal parsing, plus the
//! few trusted entry points into the Unicode machinery of std.

use vstd::prelude::*;

verus! {

// ---------------------------------------------------------------------------
// ASCII model
// ---------------------------------------------------------------------------

/// Every character of the sequence lies below code point 128.
pub open spec fn seq_is_ascii(s: Seq<char>) -> bool {
    forall|i: int| #![trigger s[i]] 0 <= i < s.len() ==> (s[i] as int) < 128
}

/// ASCII uppercase mapping of one character: `'a'..='z'` go to `'A'..='Z'`,
/// everything else is unchanged.
pub open spec fn ascii_upper_char(c: char) -> char {
    if 97 <= c as int && c as int <= 122 {
        ((c as int) - 32) as char
    } else {
        c
    }
}

/// ASCII lowercase mapping of one character: `'A'..='Z'` go to `'a'..='z'`,
/// everything else is unchanged.
pub open spec fn ascii_lower_char(c: char) -> char {
    if 65 <= c as int && c as int <= 90 {
        ((c as int) + 32) as char
    } else {
        c
    }
}

pub open spec fn ascii_upper(s: Seq<char>) -> Seq<char> {
    s.map_values(|c: char| ascii_upper_char(c))
}

pub open spec fn ascii_lower(s: Seq<char>) -> Seq<char> {
    s.map_values(|c: char| ascii_lower_char(c))
}

// ---------------------------------------------------------------------------
// Case canonicalization
// ---------------------------------------------------------------------------

/// The uppercase mapping that `str::to_uppercase` applies to a sequence that
/// contains at least one non-ASCII character. The result depends on the
/// characters alone.
pub uninterp spec fn unicode_upper(s: Seq<char>) -> Seq<char>;

/// The canonical (case-insensitive) form of a key or query string: the ASCII
/// uppercase mapping on ASCII strings, the Unicode uppercase mapping
/// otherwise.
pub open spec fn canon_upper(s: Seq<char>) -> Seq<char> {
    if seq_is_ascii(s) {
        ascii_upper(s)
    } else {
        unicode_upper(s)
    }
}

/// Relies on `str::to_uppercase`: it maps each character to its Unicode
/// uppercase form, which on ASCII input is exactly the `'a'..='z'` to
/// `'A'..='Z'` mapping with all other characters unchanged.
#[verifier::external_body]
pub(crate) fn to_upper(s: &str) -> (r: String)
    ensures
        seq_is_ascii(s@) ==> r@ == ascii_upper(s@),
        !seq_is_ascii(s@) ==> r@ == unicode_upper(s@),
{
    s.to_uppercase()
}

/// `to_upper` always returns the canonical uppercase form.
pub fn canonicalize(s: &str) -> (r: String)
    ensures
        r@ == canon_upper(s@),
{
    let r = to_upper(s);
    proof {
        if seq_is_ascii(s@) {
            assert(r@ == ascii_upper(s@));
        } else {
            assert(r@ == unicode_upper(s@));
        }
    }
    r
}

// ---------------------------------------------------------------------------
// Whitespace and trimming
// ---------------------------------------------------------------------------

/// Whether `char::is_whitespace` holds of a character above the ASCII range.
pub uninterp spec fn unicode_whitespace(c: char) -> bool;

/// The Unicode `White_Space` property: within ASCII it holds exactly of
/// horizontal tab through carriage return (code points 9..=13) and space.
pub open spec fn is_space_char(c: char) -> bool {
    if (c as int) < 128 {
        c as int == 32 || (9 <= c as int && c as int <= 13)
    } else {
        unicode_whitespace(c)
    }
}

/// Relies on `char::is_whitespace`: it tests the Unicode `White_Space`
/// property, whose ASCII members are exactly code points 9..=13 and 32.
#[verifier::external_body]
pub(crate) fn char_is_space(c: char) -> (r: bool)
    ensures
        r == is_space_char(c),
        (c as int) >= 128 ==> r == unicode_whitespace(c),
{
    c.is_whitespace()
}

pub open spec fn trim_front(s: Seq<char>) -> Seq<char>
    decreases s.len(),
{
    if s.len() > 0 && is_space_char(s[0]) {
        trim_front(s.drop_first())
    } else {
        s
    }
}

pub open spec fn trim_back(s: Seq<char>) -> Seq<char>
    decreases s.len(),
{
    if s.len() > 0 && is_space_char(s.last()) {
        trim_back(s.drop_last())
    } else {
        s
    }
}

/// What `str::trim` leaves: the input without its leading and trailing
/// whitespace.
pub open spec fn trim_spec(s: Seq<char>) -> Seq<char> {
    trim_back(trim_front(s))
}

proof fn lemma_trim_front_exact(s: Seq<char>, i: int)
    requires
        0 <= i <= s.len(),
        forall|k: int| 0 <= k < i ==> is_space_char(#[trigger] s[k]),
        i == s.len() || !is_space_char(s[i]),
    ensures
        trim_front(s) == s.subrange(i, s.len() as int),
    decreases i,
{
    if i == 0 {
        assert(trim_front(s) =~= s.subrange(0, s.len() as int));
    } else {
        let rest = s.drop_first();
        assert(rest =~= s.subrange(1, s.len() as int));
        lemma_trim_front_exact(rest, i - 1);
        assert(rest.subrange(i - 1, rest.len() as int) =~= s.subrange(i, s.len() as int));
    }
}

proof fn lemma_trim_back_exact(s: Seq<char>, j: int)
    requires
        0 <= j <= s.len(),
        forall|k: int| j <= k < s.len() ==> is_space_char(#[trigger] s[k]),
        j == 0 || !is_space_char(s[j - 1]),
    ensures
        trim_back(s) == s.subrange(0, j),
    decreases s.len() - j,
{
    if j == s.len() {
        assert(trim_back(s) =~= s.subrange(0, j));
    } else {
        let rest = s.drop_last();
        assert(rest =~= s.subrange(0, s.len() - 1));
        lemma_trim_back_exact(rest, j);
    }
}

/// `str::trim` rebuilt on verified loops: the returned slice is the input
/// without leading and trailing whitespace.
pub fn trim(s: &str) -> (r: &str)
    ensures
        r@ == trim_spec(s@),
{
    let len = s.unicode_len();
    let mut start: usize = 0;
    loop
        invariant
            0 <= start <= len,
            len == s@.len(),
            forall|k: int| 0 <= k < start ==> is_space_char(#[trigger] s@[k]),
        ensures
            0 <= start <= len,
            forall|k: int| 0 <= k < start ==> is_space_char(#[trigger] s@[k]),
            start == len || !is_space_char(s@[start as int]),
        decreases len - start,
    {
        if start >= len {
            break ;
        }
        if !char_is_space(s.get_char(start)) {
            break ;
        }
        start = start + 1;
    }
    let mut end: usize = len;
    loop
        invariant
            start <= end <= len,
            len == s@.len(),
            forall|k: int| end <= k < len ==> is_space_char(#[trigger] s@[k]),
        ensures
            start <= end <= len,
            forall|k: int| end <= k < len ==> is_space_char(#[trigger] s@[k]),
            end == start || !is_space_char(s@[end - 1]),
        decreases end,
    {
        if end <= start {
            break ;
        }
        if !char_is_space(s.get_char(end - 1)) {
            break ;
        }
        end = end - 1;
    }
    let r = s.substring_char(start, end);
    proof {
        lemma_trim_front_exact(s@, start as int);
        let t = s@.subrange(start as int, len as int);
        if end == start && start < len {
            // cannot happen: the back scan stopped at start, so s[start]
            // would have to be whitespace, but the front scan stopped on a
            // non-whitespace character
            assert(is_space_char(s@[start as int]));
        }
        assert(forall|k: int| end - start <= k < t.len() ==> is_space_char(#[trigger] t[k]));
        assert(end - start == 0 || !is_space_char(t[end - start - 1]));
        lemma_trim_back_exact(t, end - start);
        assert(t.subrange(0, end - start) =~= s@.subrange(start as int, end as int));
    }
    r
}

// ---------------------------------------------------------------------------
// Decimal numbers
// ---------------------------------------------------------------------------

pub open spec fn is_dec_digit(c: char) -> bool {
    48 <= c as int && c as int <= 57
}

pub open spec fn digit_val(c: char) -> int {
    c as int - 48
}

pub open spec fn all_digits(s: Seq<char>) -> bool {
    forall|i: int| 0 <= i < s.len() ==> is_dec_digit(#[trigger] s[i])
}

/// The number denoted by a sequence of decimal digits (most significant
/// first).
pub open spec fn digits_val(s: Seq<char>) -> int
    decreases s.len(),
{
    if s.len() == 0 {
        0
    } else {
        digits_val(s.drop_last()) * 10 + digit_val(s.last())
    }
}

proof fn lemma_digits_val_bounds(s: Seq<char>)
    requires
        all_digits(s),
    ensures
        digits_val(s) >= 0,
        s.len() > 0 ==> digits_val(s) >= digits_val(s.drop_last()),
    decreases s.len(),
{
    if s.len() > 0 {
        assert(forall|i: int|
            0 <= i < s.drop_last().len() ==> is_dec_digit(#[trigger] s.drop_last()[i]));
        lemma_digits_val_bounds(s.drop_last());
    }
}

proof fn lemma_digits_val_prefix(s: Seq<char>, k: int)
    requires
        all_digits(s),
        0 <= k <= s.len(),
    ensures
        digits_val(s) >= digits_val(s.take(k)),
    decreases s.len() - k,
{
    if k < s.len() {
        lemma_digits_val_prefix(s, k + 1);
        let p = s.take(k + 1);
        assert(p.drop_last() =~= s.take(k));
        assert(forall|i: int| 0 <= i < p.len() ==> is_dec_digit(#[trigger] p[i]));
        lemma_digits_val_bounds(p);
    } else {
        assert(s.take(k) =~= s);
    }
}

/// What `u16::from_str` accepts: an optional leading `'+'`, then at least one
/// decimal digit, denoting a value of at most `u16::MAX`.
pub open spec fn parse_u16_spec(s: Seq<char>) -> Option<u16> {
    let d = if s.len() > 0 && s[0] == '+' {
        s.subrange(1, s.len() as int)
    } else {
        s
    };
    if d.len() > 0 && all_digits(d) && digits_val(d) <= u16::MAX {
        Some(digits_val(d) as u16)
    } else {
        None
    }
}

/// Decimal parsing of a `u16`, rebuilt on verified loops.
pub fn parse_u16(s: &str) -> (r: Option<u16>)
    ensures
        r == parse_u16_spec(s@),
{
    let len = s.unicode_len();
    let mut i: usize = 0;
    let mut plus = false;
    if len > 0 {
        let c0 = s.get_char(0);
        if c0 == '+' {
            i = 1;
            plus = true;
        }
    }
    let ghost d = s@.subrange(i as int, len as int);
    proof {
        assert(plus == (s@.len() > 0 && s@[0] == '+'));
        if !plus {
            assert(d =~= s@);
        }
    }
    if i >= len {
        assert(d.len() == 0);
        return None;
    }
    let first = i;
    let mut val: u32 = 0;
    let mut j: usize = i;
    while j < len
        invariant
            first <= j <= len,
            len == s@.len(),
            first < len,
            first == if s@.len() > 0 && s@[0] == '+' { 1int } else { 0int },
            d == s@.subrange(first as int, len as int),
            first == 0 ==> d == s@,
            all_digits(d.take(j - first)),
            val == digits_val(d.take(j - first)),
            val <= 65535,
        decreases len - j,
    {
        let c = s.get_char(j);
        let cu = c as u32;
        if cu < 48 || cu > 57 {
            assert(!is_dec_digit(d[j - first]));
            return None;
        }
        proof {
            assert(d.take(j - first + 1).drop_last() =~= d.take(j - first));
        }
        val = val * 10 + (cu - 48);
        j = j + 1;
        if val > 65535 {
            proof {
                if all_digits(d) {
                    lemma_digits_val_prefix(d, j - first);
                }
            }
            return None;
        }
    }
    proof {
        assert(d.take(len - first) =~= d);
    }
    Some(val as u16)
}

/// The canonical decimal rendering of a non-negative number: no sign, no
/// leading zeros.
pub open spec fn dec_digits(n: int) -> Seq<char>
    decreases n,
{
    if n < 10 {
        seq![(n + 48) as char]
    } else {
        dec_digits(n / 10).push((n % 10 + 48) as char)
    }
}

// ---------------------------------------------------------------------------
// Facts about the ASCII mappings, used by the case-insensitivity law
// ---------------------------------------------------------------------------

/// How the ASCII case mappings act on one character: they preserve the ASCII
/// range, whitespace, digits, `':'` and `'+'`, the uppercase mapping is
/// idempotent, and uppercasing undoes lowercasing.
pub proof fn lemma_ascii_case_char(c: char)
    ensures
        ((ascii_upper_char(c) as int) < 128) == ((c as int) < 128),
        is_space_char(ascii_upper_char(c)) == is_space_char(c),
        is_dec_digit(ascii_upper_char(c)) == is_dec_digit(c),
        is_dec_digit(c) ==> ascii_upper_char(c) == c,
        (ascii_upper_char(c) == ':') == (c == ':'),
        (ascii_upper_char(c) == '+') == (c == '+'),
        ascii_upper_char(ascii_upper_char(c)) == ascii_upper_char(c),
        ascii_upper_char(ascii_lower_char(c)) == ascii_upper_char(c),
        ((ascii_lower_char(c) as int) < 128) == ((c as int) < 128),
        is_space_char(ascii_lower_char(c)) == is_space_char(c),
        is_dec_digit(ascii_lower_char(c)) == is_dec_digit(c),
        is_dec_digit(c) ==> ascii_lower_char(c) == c,
        (ascii_lower_char(c) == ':') == (c == ':'),
        (ascii_lower_char(c) == '+') == (c == '+'),
{
}

/// The seq-level consequences: length, ASCII-ness, idempotence, and that
/// uppercasing a lowercased sequence gives its uppercase form.
pub proof fn lemma_ascii_case_seq(s: Seq<char>)
    ensures
        ascii_upper(s).len() == s.len(),
        ascii_lower(s).len() == s.len(),
        seq_is_ascii(ascii_upper(s)) == seq_is_ascii(s),
        seq_is_ascii(ascii_lower(s)) == seq_is_ascii(s),
        ascii_upper(ascii_upper(s)) == ascii_upper(s),
        ascii_upper(ascii_lower(s)) == ascii_upper(s),
{
    assert(seq_is_ascii(ascii_upper(s)) == seq_is_ascii(s)) by {
        if seq_is_ascii(s) {
            assert forall|i: int| 0 <= i < ascii_upper(s).len() implies (#[trigger] ascii_upper(
                s,
            )[i] as int) < 128 by {
                lemma_ascii_case_char(s[i]);
            }
        }
        if seq_is_ascii(ascii_upper(s)) {
            assert forall|i: int| 0 <= i < s.len() implies (#[trigger] s[i] as int) < 128 by {
                assert(ascii_upper(s)[i] == ascii_upper_char(s[i]));
                lemma_ascii_case_char(s[i]);
            }
        }
    }
    assert(seq_is_ascii(ascii_lower(s)) == seq_is_ascii(s)) by {
        if seq_is_ascii(s) {
            assert forall|i: int| 0 <= i < ascii_lower(s).len() implies (#[trigger] ascii_lower(
                s,
            )[i] as int) < 128 by {
                lemma_ascii_case_char(s[i]);
            }
        }
        if seq_is_ascii(ascii_lower(s)) {
            assert forall|i: int| 0 <= i < s.len() implies (#[trigger] s[i] as int) < 128 by {
                assert(ascii_lower(s)[i] == ascii_lower_char(s[i]));
                lemma_ascii_case_char(s[i]);
            }
        }
    }
    assert(ascii_upper(ascii_upper(s)) =~= ascii_upper(s)) by {
        assert forall|i: int| 0 <= i < s.len() implies #[trigger] ascii_upper(ascii_upper(s))[i]
            == ascii_upper(s)[i] by {
            lemma_ascii_case_char(s[i]);
        }
    }
    assert(ascii_upper(ascii_lower(s)) =~= ascii_upper(s)) by {
        assert forall|i: int| 0 <= i < s.len() implies #[trigger] ascii_upper(ascii_lower(s))[i]
            == ascii_upper(s)[i] by {
            lemma_ascii_case_char(s[i]);
        }
    }
}

/// Trimming stays within the ASCII range.
pub proof fn lemma_trim_ascii(s: Seq<char>)
    requires
        seq_is_ascii(s),
    ensures
        seq_is_ascii(trim_spec(s)),
{
    lemma_trim_front_ascii(s);
    lemma_trim_back_ascii(trim_front(s));
}

proof fn lemma_trim_front_ascii(s: Seq<char>)
    requires
        seq_is_ascii(s),
    ensures
        seq_is_ascii(trim_front(s)),
    decreases s.len(),
{
    if s.len() > 0 && is_space_char(s[0]) {
        assert(seq_is_ascii(s.drop_first()));
        lemma_trim_front_ascii(s.drop_first());
    }
}

proof fn lemma_trim_back_ascii(s: Seq<char>)
    requires
        seq_is_ascii(s),
    ensures
        seq_is_ascii(trim_back(s)),
    decreases s.len(),
{
    if s.len() > 0 && is_space_char(s.last()) {
        assert(seq_is_ascii(s.drop_last()));
        lemma_trim_back_ascii(s.drop_last());
    }
}

/// Trimming commutes with a character map that preserves whitespace-ness.
proof fn lemma_trim_front_commute(s: Seq<char>, f: spec_fn(char) -> char)
    requires
        forall|c: char| is_space_char(#[trigger] f(c)) == is_space_char(c),
    ensures
        trim_front(s.map_values(f)) == trim_front(s).map_values(f),
    decreases s.len(),
{
    let m = s.map_values(f);
    if s.len() > 0 && is_space_char(s[0]) {
        assert(m[0] == f(s[0]));
        assert(is_space_char(m[0]));
        assert(m.drop_first() =~= s.drop_first().map_values(f));
        lemma_trim_front_commute(s.drop_first(), f);
    } else if s.len() > 0 {
        assert(!is_space_char(m[0]));
    }
}

proof fn lemma_trim_back_commute(s: Seq<char>, f: spec_fn(char) -> char)
    requires
        forall|c: char| is_space_char(#[trigger] f(c)) == is_space_char(c),
    ensures
        trim_back(s.map_values(f)) == trim_back(s).map_values(f),
    decreases s.len(),
{
    let m = s.map_values(f);
    if s.len() > 0 && is_space_char(s.last()) {
        assert(m.last() == f(s.last()));
        assert(is_space_char(m.last()));
        assert(m.drop_last() =~= s.drop_last().map_values(f));
        lemma_trim_back_commute(s.drop_last(), f);
    } else if s.len() > 0 {
        assert(!is_space_char(m.last()));
    }
}

/// Trimming commutes with the ASCII case mappings.
pub proof fn lemma_trim_case(s: Seq<char>)
    ensures
        trim_spec(ascii_upper(s)) == ascii_upper(trim_spec(s)),
        trim_spec(ascii_lower(s)) == ascii_lower(trim_spec(s)),
{
    let up = |c: char| ascii_upper_char(c);
    let lo = |c: char| ascii_lower_char(c);
    assert forall|c: char| is_space_char(#[trigger] up(c)) == is_space_char(c) by {
        lemma_ascii_case_char(c);
    }
    assert forall|c: char| is_space_char(#[trigger] lo(c)) == is_space_char(c) by {
        lemma_ascii_case_char(c);
    }
    lemma_trim_front_commute(s, up);
    lemma_trim_back_commute(trim_front(s), up);
    lemma_trim_front_commute(s, lo);
    lemma_trim_back_commute(trim_front(s), lo);
}

proof fn lemma_digits_val_commute(s: Seq<char>, f: spec_fn(char) -> char)
    requires
        forall|c: char| is_dec_digit(#[trigger] f(c)) == is_dec_digit(c),
        forall|c: char| is_dec_digit(c) ==> #[trigger] f(c) == c,
    ensures
        all_digits(s.map_values(f)) == all_digits(s),
        all_digits(s) ==> digits_val(s.map_values(f)) == digits_val(s),
    decreases s.len(),
{
    let m = s.map_values(f);
    if s.len() > 0 {
        assert(m.drop_last() =~= s.drop_last().map_values(f));
        lemma_digits_val_commute(s.drop_last(), f);
        if all_digits(s) {
            assert(forall|i: int|
                0 <= i < s.drop_last().len() ==> is_dec_digit(#[trigger] s.drop_last()[i]));
            assert(m.last() == f(s.last()));
            assert(m.last() == s.last());
        }
        if all_digits(m) && !all_digits(s) {
            let w = choose|i: int| 0 <= i < s.len() && !is_dec_digit(s[i]);
            assert(is_dec_digit(m[w]));
            assert(m[w] == f(s[w]));
        }
    }
}

/// Decimal parsing is unchanged by the ASCII case mappings.
pub proof fn lemma_parse_u16_case(s: Seq<char>)
    ensures
        parse_u16_spec(ascii_upper(s)) == parse_u16_spec(s),
        parse_u16_spec(ascii_lower(s)) == parse_u16_spec(s),
{
    let up = |c: char| ascii_upper_char(c);
    let lo = |c: char| ascii_lower_char(c);
    assert forall|c: char|
        is_dec_digit(#[trigger] up(c)) == is_dec_digit(c) && (is_dec_digit(c) ==> up(c) == c)
            && (up(c) == '+') == (c == '+') by {
        lemma_ascii_case_char(c);
    }
    assert forall|c: char|
        is_dec_digit(#[trigger] lo(c)) == is_dec_digit(c) && (is_dec_digit(c) ==> lo(c) == c)
            && (lo(c) == '+') == (c == '+') by {
        lemma_ascii_case_char(c);
    }
    let mu = s.map_values(up);
    let ml = s.map_values(lo);
    if s.len() > 0 {
        assert(mu[0] == up(s[0]));
        assert(ml[0] == lo(s[0]));
        assert((mu[0] == '+') == (s[0] == '+'));
        assert((ml[0] == '+') == (s[0] == '+'));
        if s[0] == '+' {
            assert(mu.subrange(1, mu.len() as int) =~= s.subrange(1, s.len() as int).map_values(
                up,
            ));
            assert(ml.subrange(1, ml.len() as int) =~= s.subrange(1, s.len() as int).map_values(
                lo,
            ));
            lemma_digits_val_commute(s.subrange(1, s.len() as int), up);
            lemma_digits_val_commute(s.subrange(1, s.len() as int), lo);
        } else {
            lemma_digits_val_commute(s, up);
            lemma_digits_val_commute(s, lo);
        }
    }
}

/// Relies on `u16`'s `Display` (through `ToString`): the canonical decimal
/// rendering of the value, without sign or leading zeros.
#[verifier::external_body]
pub(crate) fn u16_to_string(n: u16) -> (r: String)
    ensures
        r@ == dec_digits(n as int),
{
    n.to_string()
}

} // verus!
