//! Character-level helpers shared by the tokenizer, the command matcher and
//! the prefix resolver.
use vstd::prelude::*;
use vstd::string::StrSliceExecFns;

verus! {

/// Unicode `White_Space` characters, the set that `char::is_whitespace` tests.
pub open spec fn is_ws(c: char) -> bool {
    let u = c as u32;
    (0x09 <= u && u <= 0x0D) || u == 0x20 || u == 0x85 || u == 0xA0 || u == 0x1680
        || (0x2000 <= u && u <= 0x200A) || u == 0x2028 || u == 0x2029 || u == 0x202F
        || u == 0x205F || u == 0x3000
}

pub fn is_whitespace(c: char) -> (r: bool)
    ensures
        r == is_ws(c),
{
    let u = c as u32;
    (0x09 <= u && u <= 0x0D) || u == 0x20 || u == 0x85 || u == 0xA0 || u == 0x1680
        || (0x2000 <= u && u <= 0x200A) || u == 0x2028 || u == 0x2029 || u == 0x202F
        || u == 0x205F || u == 0x3000
}

/// The first index at or after `pos` that does not hold whitespace.
pub open spec fn skip_ws(s: Seq<char>, pos: int) -> int
    decreases s.len() - pos,
{
    if pos < 0 || pos >= s.len() || !is_ws(s[pos]) {
        pos
    } else {
        skip_ws(s, pos + 1)
    }
}

/// The first index at or after `pos` that holds whitespace, or the length.
pub open spec fn find_ws(s: Seq<char>, pos: int) -> int
    decreases s.len() - pos,
{
    if pos < 0 || pos >= s.len() || is_ws(s[pos]) {
        pos
    } else {
        find_ws(s, pos + 1)
    }
}

pub proof fn lemma_skip_ws_bounds(s: Seq<char>, pos: int)
    requires
        0 <= pos <= s.len(),
    ensures
        pos <= skip_ws(s, pos) <= s.len(),
        forall|k: int| pos <= k < skip_ws(s, pos) ==> is_ws(#[trigger] s[k]),
        skip_ws(s, pos) < s.len() ==> !is_ws(s[skip_ws(s, pos)]),
    decreases s.len() - pos,
{
    if pos < s.len() && is_ws(s[pos]) {
        lemma_skip_ws_bounds(s, pos + 1);
    }
}

pub proof fn lemma_find_ws_bounds(s: Seq<char>, pos: int)
    requires
        0 <= pos <= s.len(),
    ensures
        pos <= find_ws(s, pos) <= s.len(),
        forall|k: int| pos <= k < find_ws(s, pos) ==> !is_ws(#[trigger] s[k]),
        find_ws(s, pos) < s.len() ==> is_ws(s[find_ws(s, pos)]),
    decreases s.len() - pos,
{
    if pos < s.len() && !is_ws(s[pos]) {
        lemma_find_ws_bounds(s, pos + 1);
    }
}

pub fn skip_whitespace(s: &Vec<char>, pos: usize) -> (r: usize)
    requires
        pos <= s@.len(),
    ensures
        r == skip_ws(s@, pos as int),
        pos <= r <= s@.len(),
{
    let mut i: usize = pos;
    proof { lemma_skip_ws_bounds(s@, pos as int); }
    while i < s.len() && is_whitespace(s[i])
        invariant
            pos <= i <= s@.len(),
            skip_ws(s@, i as int) == skip_ws(s@, pos as int),
        decreases s@.len() - i,
    {
        i = i + 1;
    }
    i
}

pub fn find_whitespace(s: &Vec<char>, pos: usize) -> (r: usize)
    requires
        pos <= s@.len(),
    ensures
        r == find_ws(s@, pos as int),
        pos <= r <= s@.len(),
{
    let mut i: usize = pos;
    proof { lemma_find_ws_bounds(s@, pos as int); }
    while i < s.len() && !is_whitespace(s[i])
        invariant
            pos <= i <= s@.len(),
            find_ws(s@, i as int) == find_ws(s@, pos as int),
        decreases s@.len() - i,
    {
        i = i + 1;
    }
    i
}

/// ASCII lower-casing of one character, as `char::to_ascii_lowercase`.
pub open spec fn ascii_lower(c: char) -> u32 {
    let u = c as u32;
    if 0x41 <= u && u <= 0x5A {
        (u + 0x20) as u32
    } else {
        u
    }
}

/// Equality up to ASCII case, as `str::eq_ignore_ascii_case`.
pub open spec fn eq_ascii_ci(a: Seq<char>, b: Seq<char>) -> bool {
    a.len() == b.len() && forall|k: int| 0 <= k < a.len() ==> ascii_lower(#[trigger] a[k]) == ascii_lower(b[k])
}

/// Name comparison under the case rule of one resolution pass.
pub open spec fn names_equal(a: Seq<char>, b: Seq<char>, case_insensitive: bool) -> bool {
    if case_insensitive {
        eq_ascii_ci(a, b)
    } else {
        a == b
    }
}

fn lower_code(c: char) -> (r: u32)
    ensures
        r == ascii_lower(c),
{
    let u = c as u32;
    if 0x41 <= u && u <= 0x5A {
        u + 0x20
    } else {
        u
    }
}

/// Compares `a` with `b[from..to]`, ignoring ASCII case when asked to.
pub fn span_equals(a: &Vec<char>, b: &Vec<char>, from: usize, to: usize, case_insensitive: bool) -> (r: bool)
    requires
        from <= to <= b@.len(),
    ensures
        r == names_equal(a@, b@.subrange(from as int, to as int), case_insensitive),
{
    if a.len() != to - from {
        return false;
    }
    let mut k: usize = 0;
    while k < a.len()
        invariant
            a@.len() == to - from,
            from <= to <= b@.len(),
            k <= a@.len(),
            forall|j: int| 0 <= j < k ==> (if case_insensitive {
                ascii_lower(a@[j]) == ascii_lower(b@[from + j])
            } else {
                a@[j] == b@[from + j]
            }),
        decreases a@.len() - k,
    {
        let x = a[k];
        let y = b[from + k];
        if case_insensitive {
            if lower_code(x) != lower_code(y) {
                return false;
            }
        } else if x != y {
            proof {
                assert(a@[k as int] != b@.subrange(from as int, to as int)[k as int]);
            }
            return false;
        }
        k = k + 1;
    }
    proof {
        if !case_insensitive {
            assert(a@ =~= b@.subrange(from as int, to as int));
        }
    }
    true
}

/// The characters of a string slice, in order.
pub fn chars_of(s: &str) -> (r: Vec<char>)
    ensures
        r@ == s@,
{
    let n = s.unicode_len();
    let mut out: Vec<char> = Vec::new();
    let mut i: usize = 0;
    while i < n
        invariant
            n == s@.len(),
            i <= n,
            out@ == s@.subrange(0, i as int),
        decreases n - i,
    {
        out.push(s.get_char(i));
        i = i + 1;
        proof { assert(out@ =~= s@.subrange(0, i as int)); }
    }
    proof { assert(out@ =~= s@); }
    out
}

/// Relies on `String::push`: the character is appended at the end.
#[verifier::external_body]
pub(crate) fn push_char(s: &mut String, c: char)
    ensures
        final(s)@ == old(s)@.push(c),
{
    s.push(c)
}

/// The characters `s[from..to]` as a new string.
pub fn string_of_span(s: &Vec<char>, from: usize, to: usize) -> (r: String)
    requires
        from <= to <= s@.len(),
    ensures
        r@ == s@.subrange(from as int, to as int),
{
    let mut out = String::new();
    let mut i: usize = from;
    while i < to
        invariant
            from <= i <= to <= s@.len(),
            out@ == s@.subrange(from as int, i as int),
        decreases to - i,
    {
        push_char(&mut out, s[i]);
        i = i + 1;
        proof { assert(out@ =~= s@.subrange(from as int, i as int)); }
    }
    out
}

} // verus!
