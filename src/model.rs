//! Strict resolution of a requested model alias to the vendor's numeric
//! model id.
use vstd::prelude::*;
use vstd::string::*;
use crate::text::{str_eq, trim, trim_spec};

verus! {

/// Numeric id of `PLACEHOLDER_M0`; later placeholders follow in order.
pub const PLACEHOLDER_BASE: i64 = 1000;
/// Numeric id of the one named model that is not a placeholder.
pub const GPT_OSS_120B_MEDIUM_ID: i64 = 342;

pub open spec fn is_ascii_digit(c: char) -> bool {
    '0' <= c && c <= '9'
}

pub open spec fn all_ascii_digits(d: Seq<char>) -> bool {
    forall|i: int| 0 <= i < d.len() ==> is_ascii_digit(#[trigger] d[i])
}

/// Value of a run of decimal digits.
pub open spec fn char_digits_value(d: Seq<char>) -> nat
    decreases d.len(),
{
    if d.len() == 0 {
        0
    } else {
        char_digits_value(d.drop_last()) * 10 + ((d.last() as u32) - 48) as nat
    }
}

/// A signed decimal as `i64`'s parser reads it: an optional sign, then one or
/// more digits and nothing else, in range.
pub open spec fn parse_i64_spec(s: Seq<char>) -> Option<int> {
    let neg = s.len() > 0 && s[0] == '-';
    let d = if s.len() > 0 && (s[0] == '-' || s[0] == '+') { s.drop_first() } else { s };
    if d.len() == 0 || !all_ascii_digits(d) {
        None
    } else if neg {
        if char_digits_value(d) <= 0x8000000000000000 { Some(-(char_digits_value(d) as int)) } else { None }
    } else {
        if char_digits_value(d) <= i64::MAX { Some(char_digits_value(d) as int) } else { None }
    }
}

proof fn lemma_digits_prefix_le(d: Seq<char>, k: int)
    requires
        0 <= k <= d.len(),
        all_ascii_digits(d),
    ensures
        char_digits_value(d.subrange(0, k)) <= char_digits_value(d),
    decreases d.len() - k,
{
    if k == d.len() {
        assert(d.subrange(0, k) =~= d);
    } else {
        lemma_digits_prefix_le(d, k + 1);
        assert(d.subrange(0, k + 1).drop_last() =~= d.subrange(0, k));
        assert(is_ascii_digit(d[k]));
        let a = char_digits_value(d.subrange(0, k));
        assert(a <= a * 10 + ((d[k] as u32) - 48) as nat) by (nonlinear_arith);
    }
}

/// Reads the digits `s[a..n]` as a number no larger than `limit`.
fn digits_upto(s: &str, a: usize, n: usize, limit: u64) -> (r: Option<u64>)
    requires
        a <= n <= s@.len(),
    ensures
        match r {
            Some(v) => all_ascii_digits(s@.subrange(a as int, n as int)) && char_digits_value(
                s@.subrange(a as int, n as int),
            ) == v as nat && v <= limit,
            None => !all_ascii_digits(s@.subrange(a as int, n as int)) || char_digits_value(
                s@.subrange(a as int, n as int),
            ) > limit,
        },
{
    let ghost d = s@.subrange(a as int, n as int);
    let mut acc: u64 = 0;
    let mut i: usize = a;
    while i < n
        invariant
            a <= i <= n <= s@.len(),
            d == s@.subrange(a as int, n as int),
            forall|k: int| a <= k < i ==> is_ascii_digit(#[trigger] s@[k]),
            acc as nat == char_digits_value(s@.subrange(a as int, i as int)),
            acc <= limit,
        decreases n - i,
    {
        let c = s.get_char(i);
        proof {
            assert(s@.subrange(a as int, i + 1).drop_last() =~= s@.subrange(a as int, i as int));
        }
        if !('0' <= c && c <= '9') {
            proof {
                assert(d[i - a] == c);
            }
            return None;
        }
        let digit: u64 = (c as u32 - 48) as u64;
        if digit > limit || acc > (limit - digit) / 10 {
            proof {
                assert(d.subrange(0, i + 1 - a) =~= s@.subrange(a as int, i + 1));
                assert(acc * 10 + digit > limit) by (nonlinear_arith)
                    requires digit > limit || acc > (limit - digit) / 10, digit < 10;
                if all_ascii_digits(d) {
                    lemma_digits_prefix_le(d, i + 1 - a);
                }
            }
            return None;
        }
        proof {
            assert(acc * 10 + digit <= limit) by (nonlinear_arith)
                requires acc <= (limit - digit) / 10, digit <= limit, digit < 10;
        }
        acc = acc * 10 + digit;
        i += 1;
    }
    proof {
        assert forall|k: int| 0 <= k < d.len() implies is_ascii_digit(#[trigger] d[k]) by {
            assert(d[k] == s@[a + k]);
        }
    }
    Some(acc)
}

/// Parses a signed 64-bit decimal.
pub fn parse_i64(s: &str) -> (r: Option<i64>)
    ensures
        match r {
            Some(v) => parse_i64_spec(s@) == Some(v as int),
            None => parse_i64_spec(s@) is None,
        },
{
    let n = s.unicode_len();
    let neg = n > 0 && s.get_char(0) == '-';
    let signed = n > 0 && (s.get_char(0) == '-' || s.get_char(0) == '+');
    let a: usize = if signed { 1 } else { 0 };
    proof {
        let d = if s@.len() > 0 && (s@[0] == '-' || s@[0] == '+') { s@.drop_first() } else { s@ };
        assert(d =~= s@.subrange(a as int, n as int));
    }
    if a >= n {
        return None;
    }
    if neg {
        match digits_upto(s, a, n, 0x8000000000000000u64) {
            Some(v) => {
                if v == 0x8000000000000000u64 {
                    Some(i64::MIN)
                } else {
                    Some(-(v as i64))
                }
            },
            None => None,
        }
    } else {
        match digits_upto(s, a, n, i64::MAX as u64) {
            Some(v) => Some(v as i64),
            None => None,
        }
    }
}

/// Whether `m` occurs in `s` at position `i`.
pub open spec fn occurs_at(s: Seq<char>, m: Seq<char>, i: int) -> bool {
    0 <= i && i + m.len() <= s.len() && s.subrange(i, i + m.len()) == m
}

/// First position at or after `i` where `m` occurs in `s`, or -1.
pub open spec fn find_from(s: Seq<char>, m: Seq<char>, i: int) -> int
    decreases s.len() - i,
{
    if i < 0 || i >= s.len() || i + m.len() > s.len() {
        -1
    } else if occurs_at(s, m, i) {
        i
    } else {
        find_from(s, m, i + 1)
    }
}

/// End of the run of ASCII digits that starts at `a`.
pub open spec fn digit_run_end(s: Seq<char>, a: int) -> int
    decreases s.len() - a,
{
    if a < 0 || a >= s.len() || !is_ascii_digit(s[a]) { a } else { digit_run_end(s, a + 1) }
}

/// The number written right after the first `PLACEHOLDER_M` in `s`.
pub open spec fn placeholder_index_spec(s: Seq<char>) -> Option<int> {
    let m = "PLACEHOLDER_M"@;
    let p = find_from(s, m, 0);
    if p < 0 {
        None
    } else {
        let a = p + m.len();
        let e = digit_run_end(s, a);
        if e == a || char_digits_value(s.subrange(a, e)) > i64::MAX {
            None
        } else {
            Some(char_digits_value(s.subrange(a, e)) as int)
        }
    }
}

fn occurs_at_exec(s: &str, m: &str, i: usize, n: usize, k: usize) -> (r: bool)
    requires
        n == s@.len(),
        k == m@.len(),
    ensures
        r == occurs_at(s@, m@, i as int),
{
    if i > n || k > n - i {
        return false;
    }
    let mut j: usize = 0;
    while j < k
        invariant
            n == s@.len(),
            k == m@.len(),
            i + k <= n,
            j <= k,
            forall|t: int| 0 <= t < j ==> s@[i + t] == m@[t],
        decreases k - j,
    {
        if s.get_char(i + j) != m.get_char(j) {
            proof {
                assert(s@.subrange(i as int, i + k)[j as int] != m@[j as int]);
            }
            return false;
        }
        j += 1;
    }
    proof {
        assert(s@.subrange(i as int, i + k) =~= m@);
    }
    true
}

fn find_exec(s: &str, m: &str, n: usize, k: usize) -> (r: Option<usize>)
    requires
        n == s@.len(),
        k == m@.len(),
        k > 0,
    ensures
        match r {
            Some(p) => find_from(s@, m@, 0) == p as int && p + k <= n,
            None => find_from(s@, m@, 0) == -1,
        },
{
    let mut p: usize = 0;
    while p < n && k <= n - p
        invariant
            n == s@.len(),
            k == m@.len(),
            k > 0,
            find_from(s@, m@, p as int) == find_from(s@, m@, 0),
        decreases n - p,
    {
        if occurs_at_exec(s, m, p, n, k) {
            return Some(p);
        }
        p += 1;
    }
    None
}

/// Reads the index of a `PLACEHOLDER_M<digits>` model name, wherever the
/// marker stands in the text.
pub fn parse_placeholder_model_index(raw: &str) -> (r: Option<i64>)
    ensures
        match r {
            Some(v) => placeholder_index_spec(raw@) == Some(v as int),
            None => placeholder_index_spec(raw@) is None,
        },
{
    let marker = "PLACEHOLDER_M";
    let n = raw.unicode_len();
    let k = marker.unicode_len();
    proof {
        reveal_strlit("PLACEHOLDER_M");
    }
    let p = match find_exec(raw, marker, n, k) {
        Some(p) => p,
        None => {
            return None;
        },
    };
    let a = p + k;
    let mut e: usize = a;
    while e < n && ('0' <= raw.get_char(e) && raw.get_char(e) <= '9')
        invariant
            a <= e <= n == raw@.len(),
            digit_run_end(raw@, e as int) == digit_run_end(raw@, a as int),
            forall|t: int| a <= t < e ==> is_ascii_digit(#[trigger] raw@[t]),
        decreases n - e,
    {
        e += 1;
    }
    if e == a {
        return None;
    }
    match digits_upto(raw, a, e, i64::MAX as u64) {
        Some(v) => Some(v as i64),
        None => {
            proof {
                assert forall|t: int| 0 <= t < raw@.subrange(a as int, e as int).len() implies is_ascii_digit(
                    #[trigger] raw@.subrange(a as int, e as int)[t],
                ) by {
                    assert(raw@.subrange(a as int, e as int)[t] == raw@[a + t]);
                }
            }
            None
        },
    }
}

/// Numeric id for a model-constant name: `PLACEHOLDER_M<n>` gives the
/// placeholder base plus `n`; two spellings of one named model give its id.
pub open spec fn enum_name_id_spec(c: Seq<char>) -> Option<int> {
    let t = trim_spec(c);
    match placeholder_index_spec(t) {
        Some(n) => if PLACEHOLDER_BASE + n <= i64::MAX { Some(PLACEHOLDER_BASE + n) } else { None },
        None => if t == "MODEL_OPENAI_GPT_OSS_120B_MEDIUM"@ || t == "OPENAI_GPT_OSS_120B_MEDIUM"@ {
            Some(GPT_OSS_120B_MEDIUM_ID as int)
        } else {
            None
        },
    }
}

/// Maps a model-constant enum name to its numeric id.
pub fn parse_model_enum_name(model_constant: &str) -> (r: Option<i64>)
    ensures
        match r {
            Some(v) => enum_name_id_spec(model_constant@) == Some(v as int),
            None => enum_name_id_spec(model_constant@) is None,
        },
{
    let t = trim(model_constant);
    let ts = t.as_str();
    match parse_placeholder_model_index(ts) {
        Some(n) => {
            if n <= i64::MAX - PLACEHOLDER_BASE {
                Some(PLACEHOLDER_BASE + n)
            } else {
                None
            }
        },
        None => {
            if str_eq(ts, "MODEL_OPENAI_GPT_OSS_120B_MEDIUM") || str_eq(ts, "OPENAI_GPT_OSS_120B_MEDIUM") {
                Some(GPT_OSS_120B_MEDIUM_ID)
            } else {
                None
            }
        },
    }
}

/// Why strict resolution failed.
#[derive(Clone, Copy, Debug, PartialEq, Eq, Structural)]
pub enum ModelResolutionError {
    /// The model list had no models.
    CatalogMissing,
    /// The model list does not name the alias.
    NotListed,
    /// The listed model has no (or an empty) model constant.
    MissingConstant,
    /// The model constant maps to no numeric id.
    Unmappable,
}

/// One entry of the vendor's model list.
#[derive(Clone, Debug)]
pub struct ModelEntry {
    pub id: String,
    pub model_constant: Option<String>,
}

/// Id for a model constant: the constant read as an integer, else as an
/// enum name.
pub open spec fn constant_id_spec(c: Seq<char>) -> Result<int, ModelResolutionError> {
    let t = trim_spec(c);
    if t.len() == 0 {
        Err(ModelResolutionError::MissingConstant)
    } else {
        match parse_i64_spec(t) {
            Some(v) => Ok(v),
            None => match enum_name_id_spec(t) {
                Some(v) => Ok(v),
                None => Err(ModelResolutionError::Unmappable),
            },
        }
    }
}

proof fn lemma_trim_idempotent(s: Seq<char>)
    ensures
        trim_spec(trim_spec(s)) == trim_spec(s),
{
    let a = crate::text::trim_start_pos(s, 0, s.len() as int);
    let e = crate::text::trim_end_pos(s, a, s.len() as int);
    lemma_trim_start_bounds(s, 0, s.len() as int);
    lemma_trim_bounds(s, a, s.len() as int);
    let t = s.subrange(a, e);
    if t.len() > 0 {
        lemma_trim_start_first(s, 0, s.len() as int);
        lemma_trim_end_last(s, a, s.len() as int);
        assert(!crate::text::is_whitespace(t[0]));
        assert(crate::text::trim_start_pos(t, 0, t.len() as int) == 0);
        assert(!crate::text::is_whitespace(t[t.len() - 1]));
        assert(crate::text::trim_end_pos(t, 0, t.len() as int) == t.len());
        assert(t.subrange(0, t.len() as int) =~= t);
    } else {
        assert(trim_spec(t) =~= t);
    }
}

proof fn lemma_trim_start_bounds(s: Seq<char>, a: int, n: int)
    requires
        0 <= a <= n <= s.len(),
    ensures
        a <= crate::text::trim_start_pos(s, a, n) <= n,
    decreases n - a,
{
    if a < n && crate::text::is_whitespace(s[a]) {
        lemma_trim_start_bounds(s, a + 1, n);
    }
}

proof fn lemma_trim_start_first(s: Seq<char>, a: int, n: int)
    requires
        0 <= a <= n <= s.len(),
        crate::text::trim_start_pos(s, a, n) < n,
    ensures
        !crate::text::is_whitespace(s[crate::text::trim_start_pos(s, a, n)]),
    decreases n - a,
{
    if a < n && crate::text::is_whitespace(s[a]) {
        lemma_trim_start_first(s, a + 1, n);
    }
}

proof fn lemma_trim_bounds(s: Seq<char>, a: int, n: int)
    requires
        0 <= a <= n <= s.len(),
    ensures
        a <= crate::text::trim_end_pos(s, a, n) <= n,
    decreases n - a,
{
    if n > a && crate::text::is_whitespace(s[n - 1]) {
        lemma_trim_bounds(s, a, n - 1);
    }
}

proof fn lemma_trim_end_last(s: Seq<char>, a: int, n: int)
    requires
        0 <= a <= n <= s.len(),
        crate::text::trim_end_pos(s, a, n) > a,
    ensures
        !crate::text::is_whitespace(s[crate::text::trim_end_pos(s, a, n) - 1]),
    decreases n - a,
{
    if n > a && crate::text::is_whitespace(s[n - 1]) {
        lemma_trim_end_last(s, a, n - 1);
    }
}

/// Maps a model constant to its numeric id.
pub fn resolve_model_constant(model_constant: &str) -> (r: Result<i64, ModelResolutionError>)
    ensures
        match r {
            Ok(v) => constant_id_spec(model_constant@) == Ok::<int, ModelResolutionError>(v as int),
            Err(e) => constant_id_spec(model_constant@) == Err::<int, ModelResolutionError>(e),
        },
{
    let t = trim(model_constant);
    let ts = t.as_str();
    if ts.unicode_len() == 0 {
        return Err(ModelResolutionError::MissingConstant);
    }
    match parse_i64(ts) {
        Some(v) => Ok(v),
        None => {
            proof {
                lemma_trim_idempotent(model_constant@);
            }
            match parse_model_enum_name(ts) {
                Some(v) => Ok(v),
                None => Err(ModelResolutionError::Unmappable),
            }
        },
    }
}

/// Position of the first entry named `id`, or the length.
pub open spec fn entry_index(c: Seq<ModelEntry>, id: Seq<char>, i: int) -> int
    decreases c.len() - i,
{
    if i < 0 || i >= c.len() {
        c.len() as int
    } else if c[i].id@ == id {
        i
    } else {
        entry_index(c, id, i + 1)
    }
}

/// Strict resolution: an alias that reads as an integer is used as it is;
/// otherwise the catalog entry of that name must carry a model constant that
/// maps to an id.
pub open spec fn resolve_spec(alias: Seq<char>, catalog: Option<Seq<ModelEntry>>) -> Result<int, ModelResolutionError> {
    let t = trim_spec(alias);
    match parse_i64_spec(t) {
        Some(v) => Ok(v),
        None => match catalog {
            None => Err(ModelResolutionError::CatalogMissing),
            Some(c) => {
                let i = entry_index(c, t, 0);
                if i >= c.len() {
                    Err(ModelResolutionError::NotListed)
                } else {
                    match c[i].model_constant {
                        None => Err(ModelResolutionError::MissingConstant),
                        Some(k) => constant_id_spec(k@),
                    }
                }
            },
        },
    }
}

/// Resolves a requested model alias against the model list (`None` when the
/// list came back without models).
pub fn resolve_requested_model(alias: &str, catalog: Option<&Vec<ModelEntry>>) -> (r: Result<
    i64,
    ModelResolutionError,
>)
    ensures
        match r {
            Ok(v) => resolve_spec(
                alias@,
                match catalog {
                    Some(c) => Some(c@),
                    None => None,
                },
            ) == Ok::<int, ModelResolutionError>(v as int),
            Err(e) => resolve_spec(
                alias@,
                match catalog {
                    Some(c) => Some(c@),
                    None => None,
                },
            ) == Err::<int, ModelResolutionError>(e),
        },
{
    let t = trim(alias);
    let ts = t.as_str();
    if let Some(v) = parse_i64(ts) {
        return Ok(v);
    }
    let c = match catalog {
        None => {
            return Err(ModelResolutionError::CatalogMissing);
        },
        Some(c) => c,
    };
    let mut i: usize = 0;
    while i < c.len()
        invariant
            i <= c@.len(),
            t@ == trim_spec(alias@),
            ts@ == t@,
            parse_i64_spec(t@) is None,
            catalog == Some(c),
            entry_index(c@, t@, i as int) == entry_index(c@, t@, 0),
        decreases c@.len() - i,
    {
        let entry = &c[i];
        let same = str_eq(entry.id.as_str(), ts);
        proof {
            assert(entry == c@[i as int]);
            assert(same == (c@[i as int].id@ == t@));
        }
        if same {
            return match &c[i].model_constant {
                None => Err(ModelResolutionError::MissingConstant),
                Some(k) => resolve_model_constant(k.as_str()),
            };
        }
        i += 1;
    }
    Err(ModelResolutionError::NotListed)
}

proof fn lemma_digit_run_to_end(s: Seq<char>, a: int)
    requires
        0 <= a <= s.len(),
        forall|k: int| a <= k < s.len() ==> is_ascii_digit(#[trigger] s[k]),
    ensures
        digit_run_end(s, a) == s.len(),
    decreases s.len() - a,
{
    if a < s.len() {
        lemma_digit_run_to_end(s, a + 1);
    }
}

/// Resolution of a placeholder model constant: whatever alias names it, a
/// listed model whose constant is `PLACEHOLDER_M` followed by the digits of
/// `n` resolves to exactly the placeholder base plus `n`.
pub proof fn lemma_placeholder_resolution(alias: Seq<char>, catalog: Seq<ModelEntry>, digits: Seq<char>)
    requires
        parse_i64_spec(trim_spec(alias)) is None,
        entry_index(catalog, trim_spec(alias), 0) < catalog.len(),
        catalog[entry_index(catalog, trim_spec(alias), 0)].model_constant is Some,
        catalog[entry_index(catalog, trim_spec(alias), 0)].model_constant.unwrap()@ == "PLACEHOLDER_M"@
            + digits,
        digits.len() > 0,
        all_ascii_digits(digits),
        PLACEHOLDER_BASE + char_digits_value(digits) <= i64::MAX,
    ensures
        resolve_spec(alias, Some(catalog)) == Ok::<int, ModelResolutionError>(
            PLACEHOLDER_BASE + char_digits_value(digits),
        ),
{
    reveal_strlit("PLACEHOLDER_M");
    let m = "PLACEHOLDER_M"@;
    let c = m + digits;
    let n = c.len() as int;
    assert(c[0] == 'P');
    assert(!crate::text::is_whitespace(c[0]));
    assert(crate::text::trim_start_pos(c, 0, n) == 0);
    assert(c[n - 1] == digits[digits.len() - 1]);
    assert(is_ascii_digit(digits[digits.len() - 1]));
    assert(crate::text::trim_end_pos(c, 0, n) == n);
    assert(c.subrange(0, n) =~= c);
    assert(trim_spec(c) == c);
    assert(!is_ascii_digit(c[0]));
    assert(!all_ascii_digits(c));
    assert(parse_i64_spec(c) is None);
    assert(c.subrange(0, 13) =~= m);
    assert(occurs_at(c, m, 0));
    assert(find_from(c, m, 0) == 0);
    assert forall|k: int| 13 <= k < c.len() implies is_ascii_digit(#[trigger] c[k]) by {
        assert(c[k] == digits[k - 13]);
    }
    lemma_digit_run_to_end(c, 13);
    assert(c.subrange(13, n) =~= digits);
    assert(placeholder_index_spec(c) == Some(char_digits_value(digits) as int));
}

} // verus!
