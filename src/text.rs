//! Small text utilities over `str` with exact contracts.
use vstd::prelude::*;
use vstd::string::*;

verus! {

/// Compares two byte slices.
pub fn bytes_equal(a: &[u8], b: &[u8]) -> (r: bool)
    ensures
        r == (a@ == b@),
{
    if a.len() != b.len() {
        return false;
    }
    let mut i: usize = 0;
    while i < a.len()
        invariant
            a@.len() == b@.len(),
            i <= a@.len(),
            forall|k: int| 0 <= k < i ==> a@[k] == b@[k],
        decreases a@.len() - i,
    {
        if a[i] != b[i] {
            return false;
        }
        i += 1;
    }
    proof {
        assert(a@ =~= b@);
    }
    true
}

/// Compares two strings.
pub fn str_eq(a: &str, b: &str) -> (r: bool)
    ensures
        r == (a@ == b@),
{
    proof {
        vstd::utf8::encode_utf8_decode_utf8(a@);
        vstd::utf8::encode_utf8_decode_utf8(b@);
    }
    bytes_equal(a.as_bytes(), b.as_bytes())
}

pub open spec fn lower_char(c: char) -> char {
    if 'A' <= c && c <= 'Z' { ((c as u8) + 32) as char } else { c }
}

/// Equality up to ASCII case.
pub open spec fn eq_ignore_ascii_case(a: Seq<char>, b: Seq<char>) -> bool {
    a.len() == b.len() && forall|i: int| 0 <= i < a.len() ==> lower_char(#[trigger] a[i]) == lower_char(b[i])
}

pub open spec fn starts_with(s: Seq<char>, p: Seq<char>) -> bool {
    p.len() <= s.len() && s.subrange(0, p.len() as int) == p
}

pub open spec fn ends_with(s: Seq<char>, p: Seq<char>) -> bool {
    p.len() <= s.len() && s.subrange(s.len() - p.len(), s.len() as int) == p
}

fn lower_exec(c: char) -> (r: char)
    ensures
        r == lower_char(c),
{
    if 'A' <= c && c <= 'Z' {
        ((c as u8) + 32) as char
    } else {
        c
    }
}

/// Compares up to ASCII case.
pub fn str_eq_ignore_ascii_case(a: &str, b: &str) -> (r: bool)
    ensures
        r == eq_ignore_ascii_case(a@, b@),
{
    let n = a.unicode_len();
    if n != b.unicode_len() {
        return false;
    }
    let mut i: usize = 0;
    while i < n
        invariant
            n == a@.len() == b@.len(),
            i <= n,
            forall|k: int| 0 <= k < i ==> lower_char(#[trigger] a@[k]) == lower_char(b@[k]),
        decreases n - i,
    {
        if lower_exec(a.get_char(i)) != lower_exec(b.get_char(i)) {
            return false;
        }
        i += 1;
    }
    true
}

/// Whether `s` begins with `p`.
pub fn str_starts_with(s: &str, p: &str) -> (r: bool)
    ensures
        r == starts_with(s@, p@),
{
    let n = p.unicode_len();
    let m = s.unicode_len();
    if n > m {
        return false;
    }
    let mut i: usize = 0;
    while i < n
        invariant
            n == p@.len(),
            m == s@.len(),
            n <= m,
            i <= n,
            forall|k: int| 0 <= k < i ==> s@[k] == p@[k],
        decreases n - i,
    {
        if s.get_char(i) != p.get_char(i) {
            proof {
                assert(s@.subrange(0, n as int)[i as int] != p@[i as int]);
            }
            return false;
        }
        i += 1;
    }
    proof {
        assert(s@.subrange(0, n as int) =~= p@);
    }
    true
}

/// Whether `s` ends with `p`.
pub fn str_ends_with(s: &str, p: &str) -> (r: bool)
    ensures
        r == ends_with(s@, p@),
{
    let n = p.unicode_len();
    let m = s.unicode_len();
    if n > m {
        return false;
    }
    let off = m - n;
    let mut i: usize = 0;
    while i < n
        invariant
            n == p@.len(),
            m == s@.len(),
            n <= m,
            off == m - n,
            i <= n,
            forall|k: int| 0 <= k < i ==> s@[off + k] == p@[k],
        decreases n - i,
    {
        if s.get_char(off + i) != p.get_char(i) {
            proof {
                assert(s@.subrange(off as int, m as int)[i as int] != p@[i as int]);
            }
            return false;
        }
        i += 1;
    }
    proof {
        assert(s@.subrange(off as int, m as int) =~= p@);
    }
    true
}

/// Length of `s` once trailing occurrences of `c` are removed.
pub open spec fn trim_end_char_len(s: Seq<char>, c: char, n: int) -> int
    decreases n,
{
    if n <= 0 || s[n - 1] != c { n } else { trim_end_char_len(s, c, n - 1) }
}

/// Start of the segment after the last `c` in `s[..n]` (0 when there is none).
pub open spec fn after_last(s: Seq<char>, c: char, n: int) -> int
    decreases n,
{
    if n <= 0 { 0 } else if s[n - 1] == c { n } else { after_last(s, c, n - 1) }
}

/// First position of `c` in `s[a..n]`, or `n`.
pub open spec fn first_of(s: Seq<char>, c: char, a: int, n: int) -> int
    decreases n - a,
{
    if a >= n || s[a] == c { a } else { first_of(s, c, a + 1, n) }
}

/// RPC method named by a path: the last `/`-separated segment once trailing
/// slashes are dropped, cut at its first colon.
pub open spec fn rpc_method_of(p: Seq<char>) -> Seq<char> {
    let n = trim_end_char_len(p, '/', p.len() as int);
    let a = after_last(p, '/', n);
    p.subrange(a, first_of(p, ':', a, n))
}

/// The RPC method that a request path names.
pub fn rpc_method_name_from_path(path: &str) -> (r: String)
    ensures
        r@ == rpc_method_of(path@),
{
    let len = path.unicode_len();
    let mut n: usize = len;
    while n > 0 && path.get_char(n - 1) == '/'
        invariant
            n <= len == path@.len(),
            trim_end_char_len(path@, '/', n as int) == trim_end_char_len(path@, '/', len as int),
        decreases n,
    {
        n -= 1;
    }
    let mut a: usize = n;
    while a > 0 && path.get_char(a - 1) != '/'
        invariant
            a <= n <= path@.len(),
            after_last(path@, '/', a as int) == after_last(path@, '/', n as int),
        decreases a,
    {
        a -= 1;
    }
    let mut c: usize = a;
    while c < n && path.get_char(c) != ':'
        invariant
            a <= c <= n <= path@.len(),
            first_of(path@, ':', c as int, n as int) == first_of(path@, ':', a as int, n as int),
        decreases n - c,
    {
        c += 1;
    }
    path.substring_char(a, c).to_string()
}

/// Whether a path names the given RPC method.
pub fn path_matches_rpc_method(path: &str, method: &str) -> (r: bool)
    ensures
        r == (rpc_method_of(path@) == method@),
{
    let name = rpc_method_name_from_path(path);
    str_eq(name.as_str(), method)
}

/// Unicode white space, as `char::is_whitespace` defines it.
pub open spec fn is_whitespace(c: char) -> bool {
    let u = c as u32;
    (9 <= u && u <= 13) || u == 32 || u == 0x85 || u == 0xA0 || u == 0x1680 || (0x2000 <= u && u
        <= 0x200A) || u == 0x2028 || u == 0x2029 || u == 0x202F || u == 0x205F || u == 0x3000
}

fn is_whitespace_exec(c: char) -> (r: bool)
    ensures
        r == is_whitespace(c),
{
    let u = c as u32;
    (9 <= u && u <= 13) || u == 32 || u == 0x85 || u == 0xA0 || u == 0x1680 || (0x2000 <= u && u
        <= 0x200A) || u == 0x2028 || u == 0x2029 || u == 0x202F || u == 0x205F || u == 0x3000
}

/// First position at or after `a` that is not white space (or `n`).
pub open spec fn trim_start_pos(s: Seq<char>, a: int, n: int) -> int
    decreases n - a,
{
    if a >= n || !is_whitespace(s[a]) { a } else { trim_start_pos(s, a + 1, n) }
}

/// End of `s[a..n]` once trailing white space is dropped.
pub open spec fn trim_end_pos(s: Seq<char>, a: int, n: int) -> int
    decreases n - a,
{
    if n <= a || !is_whitespace(s[n - 1]) { n } else { trim_end_pos(s, a, n - 1) }
}

/// `s` without leading and trailing white space.
pub open spec fn trim_spec(s: Seq<char>) -> Seq<char> {
    let a = trim_start_pos(s, 0, s.len() as int);
    s.subrange(a, trim_end_pos(s, a, s.len() as int))
}

/// Copies `s` without leading and trailing white space.
pub fn trim(s: &str) -> (r: String)
    ensures
        r@ == trim_spec(s@),
{
    let n = s.unicode_len();
    let mut a: usize = 0;
    while a < n && is_whitespace_exec(s.get_char(a))
        invariant
            a <= n == s@.len(),
            trim_start_pos(s@, a as int, n as int) == trim_start_pos(s@, 0, n as int),
        decreases n - a,
    {
        a += 1;
    }
    let mut e: usize = n;
    while e > a && is_whitespace_exec(s.get_char(e - 1))
        invariant
            a <= e <= n == s@.len(),
            trim_end_pos(s@, a as int, e as int) == trim_end_pos(s@, a as int, n as int),
        decreases e - a,
    {
        e -= 1;
    }
    s.substring_char(a, e).to_string()
}

} // verus!
