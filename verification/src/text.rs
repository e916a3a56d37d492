use vstd::prelude::*;

verus! {

// ---------------------------------------------------------------------------
// Substring search over character sequences.
// ---------------------------------------------------------------------------

/// The needle `n` occurs in `h` starting at position `i`.
pub open spec fn spec_matches_at(h: Seq<char>, n: Seq<char>, i: int) -> bool {
    &&& 0 <= i
    &&& i + n.len() <= h.len()
    &&& forall|j: int| 0 <= j < n.len() ==> h[i + j] == n[j]
}

/// The needle `n` occurs somewhere in `h`.
pub open spec fn spec_contains(h: Seq<char>, n: Seq<char>) -> bool {
    exists|i: int| spec_matches_at(h, n, i)
}

fn matches_at(s: &str, pat: &str, i: usize) -> (r: bool)
    requires
        i + pat@.len() <= s@.len(),
        s@.len() <= usize::MAX,
    ensures
        r == spec_matches_at(s@, pat@, i as int),
{
    let n = pat.unicode_len();
    let mut j: usize = 0;
    while j < n
        invariant
            n == pat@.len(),
            i + n <= s@.len() <= usize::MAX,
            0 <= j <= n,
            forall|k: int| 0 <= k < j ==> s@[i + k] == pat@[k],
        decreases n - j,
    {
        if s.get_char(i + j) != pat.get_char(j) {
            return false;
        }
        j += 1;
    }
    true
}

/// Whether `pat` occurs as a contiguous substring of `s`, by characters.
pub fn contains_str(s: &str, pat: &str) -> (r: bool)
    ensures
        r == spec_contains(s@, pat@),
{
    let n = s.unicode_len();
    let m = pat.unicode_len();
    if m > n {
        return false;
    }
    let mut i: usize = 0;
    while i <= n - m
        invariant
            n == s@.len(),
            m == pat@.len(),
            m <= n,
            0 <= i <= n - m + 1,
            forall|k: int| 0 <= k < i ==> !spec_matches_at(s@, pat@, k),
        decreases n - m + 1 - i,
    {
        if matches_at(s, pat, i) {
            return true;
        }
        i += 1;
    }
    assert forall|k: int| !spec_matches_at(s@, pat@, k) by {
        if 0 <= k && k + pat@.len() <= s@.len() {
            assert(k < i);
        }
    }
    false
}

// ---------------------------------------------------------------------------
// Decimal formatting of identifiers.
// ---------------------------------------------------------------------------

/// The character for one decimal digit.
pub open spec fn spec_digit(d: int) -> char {
    if d == 0 { '0' }
    else if d == 1 { '1' }
    else if d == 2 { '2' }
    else if d == 3 { '3' }
    else if d == 4 { '4' }
    else if d == 5 { '5' }
    else if d == 6 { '6' }
    else if d == 7 { '7' }
    else if d == 8 { '8' }
    else if d == 9 { '9' }
    else { ' ' }
}

/// The decimal representation of `n`, most significant digit first, with no
/// leading zeros (a single `'0'` for zero).
pub open spec fn spec_dec(n: nat) -> Seq<char>
    decreases n,
{
    if n < 10 {
        seq![spec_digit(n as int)]
    } else {
        spec_dec(n / 10).push(spec_digit((n % 10) as int))
    }
}

fn digit_char(d: u64) -> (r: char)
    requires
        d < 10,
    ensures
        r == spec_digit(d as int),
{
    if d == 0 { '0' }
    else if d == 1 { '1' }
    else if d == 2 { '2' }
    else if d == 3 { '3' }
    else if d == 4 { '4' }
    else if d == 5 { '5' }
    else if d == 6 { '6' }
    else if d == 7 { '7' }
    else if d == 8 { '8' }
    else { '9' }
}

/// Relies on `String::from_iter` through `Iterator::collect`: collecting
/// characters yields the string of exactly those characters, in order.
#[verifier::external_body]
fn chars_to_string(v: Vec<char>) -> (r: String)
    ensures
        r@ == v@,
{
    v.into_iter().collect()
}

/// The decimal rendering of an identifier.
pub fn to_decimal(n: u64) -> (r: String)
    ensures
        r@ == spec_dec(n as nat),
{
    let mut digits: Vec<char> = Vec::new();
    let mut cur: u64 = n;
    while cur >= 10
        invariant
            spec_dec(n as nat) =~= spec_dec(cur as nat) + digits@,
        decreases cur,
    {
        let ghost before = digits@;
        let d = digit_char(cur % 10);
        digits.insert(0, d);
        proof {
            assert(digits@ =~= seq![d] + before);
            assert(spec_dec(cur as nat) =~= spec_dec((cur / 10) as nat) + seq![
                spec_digit((cur % 10) as int),
            ]);
            assert(spec_dec(n as nat) =~= spec_dec((cur / 10) as nat) + digits@);
        }
        cur = cur / 10;
    }
    let ghost before = digits@;
    let d = digit_char(cur);
    digits.insert(0, d);
    proof {
        assert(digits@ =~= seq![d] + before);
        assert(spec_dec(cur as nat) =~= seq![d]);
        assert(digits@ =~= spec_dec(n as nat));
    }
    chars_to_string(digits)
}

// ---------------------------------------------------------------------------
// Path strings. Paths are plain strings whose components are separated by
// `'/'`; no trailing separator is expected on directory paths.
// ---------------------------------------------------------------------------

/// `b` and `n` joined with a single separator.
pub open spec fn spec_join(b: Seq<char>, n: Seq<char>) -> Seq<char> {
    b + seq!['/'] + n
}

/// Joins a directory path and one further component.
pub fn path_join(base: &str, name: &str) -> (r: String)
    ensures
        r@ == spec_join(base@, name@),
{
    proof {
        reveal_strlit("/");
        assert("/"@ =~= seq!['/']);
    }
    let mut s = String::from_str(base);
    s.append("/");
    s.append(name);
    assert(s@ =~= spec_join(base@, name@));
    s
}

/// Splits a path into its parent directory and final component. Returns
/// `None` when the path is empty, ends in a separator, or has no separator.
pub fn split_path(path: &str) -> (r: Option<(String, String)>)
    ensures
        match r {
            Some(p) => {
                &&& path@ =~= spec_join(p.0@, p.1@)
                &&& p.1@.len() > 0
                &&& forall|j: int| 0 <= j < p.1@.len() ==> p.1@[j] != '/'
            },
            None => path@.len() == 0 || path@[path@.len() - 1] == '/' || (forall|j: int|
                0 <= j < path@.len() ==> path@[j] != '/'),
        },
{
    let n = path.unicode_len();
    if n == 0 {
        return None;
    }
    let mut k: usize = n;
    while k > 0
        invariant
            n == path@.len() <= usize::MAX,
            0 <= k <= n,
            forall|j: int| k <= j < n ==> path@[j] != '/',
        decreases k,
    {
        if path.get_char(k - 1) == '/' {
            // Separator found at position k - 1.
            if k == n {
                return None;
            }
            let parent = String::from_str(path.substring_char(0, k - 1));
            let name = String::from_str(path.substring_char(k, n));
            assert(path@ =~= spec_join(parent@, name@));
            return Some((parent, name));
        }
        k -= 1;
    }
    None
}

/// The index of the last separator of `s`, `-1` when it has none.
pub open spec fn spec_last_slash(s: Seq<char>) -> int
    decreases s.len(),
{
    if s.len() == 0 {
        -1
    } else if s[s.len() - 1] == '/' {
        s.len() - 1
    } else {
        spec_last_slash(s.drop_last())
    }
}

/// `s` has a parent directory and a nonempty final component.
pub open spec fn spec_has_filename(s: Seq<char>) -> bool {
    0 <= spec_last_slash(s) < s.len() - 1
}

/// Everything before the last separator.
pub open spec fn spec_parent(s: Seq<char>) -> Seq<char> {
    s.subrange(0, spec_last_slash(s))
}

/// Everything after the last separator.
pub open spec fn spec_file_name(s: Seq<char>) -> Seq<char> {
    s.subrange(spec_last_slash(s) + 1, s.len() as int)
}

/// Where the last separator stands: at the last position that holds one.
pub proof fn lemma_last_slash_at(s: Seq<char>, k: int)
    requires
        0 <= k < s.len(),
        s[k] == '/',
        forall|j: int| k < j < s.len() ==> s[j] != '/',
    ensures
        spec_last_slash(s) == k,
    decreases s.len(),
{
    if k == s.len() - 1 {
    } else {
        assert(s[s.len() - 1] != '/');
        assert forall|j: int| k < j < s.drop_last().len() implies s.drop_last()[j] != '/' by {
            assert(s.drop_last()[j] == s[j]);
        }
        assert(s.drop_last()[k] == s[k]);
        lemma_last_slash_at(s.drop_last(), k);
    }
}

/// A path without separators has no last separator.
pub proof fn lemma_no_slash(s: Seq<char>)
    requires
        forall|j: int| 0 <= j < s.len() ==> s[j] != '/',
    ensures
        spec_last_slash(s) == -1,
    decreases s.len(),
{
    if s.len() > 0 {
        assert forall|j: int| 0 <= j < s.drop_last().len() implies s.drop_last()[j] != '/' by {
            assert(s.drop_last()[j] == s[j]);
        }
        lemma_no_slash(s.drop_last());
    }
}

/// A join with a separator-free nonempty component splits back into exactly
/// its two parts.
pub proof fn lemma_split_of_join(p: Seq<char>, n: Seq<char>)
    requires
        n.len() > 0,
        forall|j: int| 0 <= j < n.len() ==> n[j] != '/',
    ensures
        spec_last_slash(spec_join(p, n)) == p.len(),
        spec_has_filename(spec_join(p, n)),
        spec_parent(spec_join(p, n)) == p,
        spec_file_name(spec_join(p, n)) == n,
{
    let s = spec_join(p, n);
    assert(s[p.len() as int] == '/');
    assert forall|j: int| p.len() < j < s.len() implies s[j] != '/' by {
        assert(s[j] == n[j - p.len() - 1]);
    }
    lemma_last_slash_at(s, p.len() as int);
    assert(spec_parent(s) =~= p);
    assert(spec_file_name(s) =~= n);
}

// ---------------------------------------------------------------------------
// Fixed-width decimal identifiers.
// ---------------------------------------------------------------------------

/// The low eight decimal digits of `n`, zero-padded.
pub open spec fn spec_pad8(n: u64) -> Seq<char> {
    let m = (n as int) % 100000000;
    seq![
        spec_digit(m / 10000000),
        spec_digit((m / 1000000) % 10),
        spec_digit((m / 100000) % 10),
        spec_digit((m / 10000) % 10),
        spec_digit((m / 1000) % 10),
        spec_digit((m / 100) % 10),
        spec_digit((m / 10) % 10),
        spec_digit(m % 10),
    ]
}

/// Renders the low eight decimal digits of `n`, zero-padded.
pub fn pad8(n: u64) -> (r: String)
    ensures
        r@ == spec_pad8(n),
{
    let m: u64 = n % 100000000;
    let mut digits: Vec<char> = Vec::new();
    digits.push(digit_char(m / 10000000));
    digits.push(digit_char((m / 1000000) % 10));
    digits.push(digit_char((m / 100000) % 10));
    digits.push(digit_char((m / 10000) % 10));
    digits.push(digit_char((m / 1000) % 10));
    digits.push(digit_char((m / 100) % 10));
    digits.push(digit_char((m / 10) % 10));
    digits.push(digit_char(m % 10));
    proof {
        assert(digits@ =~= spec_pad8(n));
    }
    chars_to_string(digits)
}

// ---------------------------------------------------------------------------
// Membership of a string in a list of strings.
// ---------------------------------------------------------------------------

/// The sequence of strings `s` holds a string whose characters are `x`.
pub open spec fn spec_contains_string(s: Seq<String>, x: Seq<char>) -> bool {
    exists|i: int| 0 <= i < s.len() && s[i]@ == x
}

/// Whether `v` holds a string equal to `x`.
pub fn contains_string(v: &Vec<String>, x: &String) -> (r: bool)
    ensures
        r == spec_contains_string(v@, x@),
{
    let mut i: usize = 0;
    while i < v.len()
        invariant
            0 <= i <= v@.len(),
            forall|j: int| 0 <= j < i ==> v@[j]@ != x@,
        decreases v@.len() - i,
    {
        if string_eq(&v[i], x) {
            return true;
        }
        i += 1;
    }
    false
}

/// Whether two strings hold the same characters.
pub fn string_eq(a: &String, b: &String) -> (r: bool)
    ensures
        r == (a@ == b@),
{
    *a == *b
}

} // verus!
