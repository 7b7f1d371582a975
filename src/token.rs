//! Token consumption: peeling one token off the argument text and converting
//! it to a value of the requested kind.
use vstd::prelude::*;
use crate::text::{is_ws, is_whitespace, skip_ws, skip_whitespace, string_of_span, push_char};

verus! {

/// The kind of value a parameter slot converts its text to.
#[derive(PartialEq, Eq, Structural, Clone, Copy, Debug)]
pub enum ValueKind {
    /// Plain text.
    Text,
    /// An unsigned 32-bit integer in decimal.
    Integer,
    /// Text in backticks, optionally with a language line.
    Code,
}

/// A code block argument.
#[derive(Debug, PartialEq, Eq)]
pub struct CodeBlock {
    pub code: String,
    pub language: Option<String>,
}

/// One converted argument.
#[derive(Debug, PartialEq, Eq)]
pub enum ArgValue {
    Text(String),
    Integer(u32),
    Code(CodeBlock),
}

/// The mathematical content of an [`ArgValue`].
pub enum ValueModel {
    Text(Seq<char>),
    Integer(u32),
    Code(Seq<char>, Option<Seq<char>>),
}

pub open spec fn opt_view(o: Option<String>) -> Option<Seq<char>> {
    match o {
        Some(s) => Some(s@),
        None => None,
    }
}

impl View for ArgValue {
    type V = ValueModel;

    open spec fn view(&self) -> ValueModel {
        match self {
            ArgValue::Text(t) => ValueModel::Text(t@),
            ArgValue::Integer(n) => ValueModel::Integer(*n),
            ArgValue::Code(c) => ValueModel::Code(c.code@, opt_view(c.language)),
        }
    }
}

/// Why an argument could not be parsed.
#[derive(Debug, PartialEq, Eq)]
pub enum ArgErrorKind {
    /// A slot needed a token and the text had none left.
    TooFewArguments,
    /// Text remained after the last slot.
    TooManyArguments,
    /// A token was not a decimal `u32`.
    InvalidInteger,
    /// A token was not a code block.
    InvalidCodeBlock,
    /// A flag slot saw something other than its literal; holds the literal.
    FlagMismatch(String),
}

/// A parse failure: its reason and the text that failed to convert, if any.
#[derive(Debug, PartialEq, Eq)]
pub struct ArgError {
    pub kind: ArgErrorKind,
    pub literal: Option<String>,
}

pub enum ErrorKindModel {
    TooFewArguments,
    TooManyArguments,
    InvalidInteger,
    InvalidCodeBlock,
    FlagMismatch(Seq<char>),
}

pub struct ErrorModel {
    pub kind: ErrorKindModel,
    pub literal: Option<Seq<char>>,
}

impl View for ArgError {
    type V = ErrorModel;

    open spec fn view(&self) -> ErrorModel {
        ErrorModel {
            kind: match self.kind {
                ArgErrorKind::TooFewArguments => ErrorKindModel::TooFewArguments,
                ArgErrorKind::TooManyArguments => ErrorKindModel::TooManyArguments,
                ArgErrorKind::InvalidInteger => ErrorKindModel::InvalidInteger,
                ArgErrorKind::InvalidCodeBlock => ErrorKindModel::InvalidCodeBlock,
                ArgErrorKind::FlagMismatch(f) => ErrorKindModel::FlagMismatch(f@),
            },
            literal: opt_view(self.literal),
        }
    }
}

pub open spec fn too_few() -> ErrorModel {
    ErrorModel { kind: ErrorKindModel::TooFewArguments, literal: None }
}

pub fn too_few_arguments() -> (r: ArgError)
    ensures
        r@ == too_few(),
{
    ArgError { kind: ArgErrorKind::TooFewArguments, literal: None }
}

// ---- backtick runs ----

/// `n` backticks start at `q`.
pub open spec fn ticks_at(s: Seq<char>, q: int, n: int) -> bool {
    0 <= q && q + n <= s.len() && forall|k: int| q <= k < q + n ==> #[trigger] s[k] == '`'
}

/// Number of consecutive backticks starting at `k`.
pub open spec fn tick_run(s: Seq<char>, k: int) -> int
    decreases s.len() - k,
{
    if k < 0 || k >= s.len() || s[k] != '`' {
        0
    } else {
        1 + tick_run(s, k + 1)
    }
}

/// The first `q >= from` where `n` backticks start.
pub open spec fn find_ticks(s: Seq<char>, from: int, n: int) -> Option<int>
    decreases s.len() - from,
{
    if from < 0 || from + n > s.len() {
        None
    } else if ticks_at(s, from, n) {
        Some(from)
    } else {
        find_ticks(s, from + 1, n)
    }
}

proof fn lemma_tick_run(s: Seq<char>, k: int)
    requires
        0 <= k <= s.len(),
    ensures
        0 <= tick_run(s, k) <= s.len() - k,
        ticks_at(s, k, tick_run(s, k)),
        k < s.len() && s[k] == '`' ==> tick_run(s, k) >= 1,
    decreases s.len() - k,
{
    if k < s.len() && s[k] == '`' {
        lemma_tick_run(s, k + 1);
    }
}

proof fn lemma_find_ticks(s: Seq<char>, from: int, n: int)
    requires
        0 <= from,
        n >= 1,
    ensures
        match find_ticks(s, from, n) {
            Some(q) => from <= q && q + n <= s.len() && ticks_at(s, q, n),
            None => true,
        },
    decreases s.len() - from,
{
    if from + n <= s.len() && !ticks_at(s, from, n) {
        lemma_find_ticks(s, from + 1, n);
    }
}

fn count_ticks(s: &Vec<char>, k: usize) -> (r: usize)
    requires
        k <= s@.len(),
    ensures
        r == tick_run(s@, k as int),
        k + r <= s@.len(),
{
    let mut i: usize = k;
    while i < s.len() && s[i] == '`'
        invariant
            k <= i <= s@.len(),
            tick_run(s@, k as int) == (i - k) + tick_run(s@, i as int),
        decreases s@.len() - i,
    {
        i = i + 1;
    }
    i - k
}

fn ticks_start_at(s: &Vec<char>, q: usize, n: usize) -> (r: bool)
    requires
        q + n <= s@.len(),
    ensures
        r == ticks_at(s@, q as int, n as int),
{
    let len = s.len();
    let mut k: usize = 0;
    while k < n
        invariant
            len == s@.len(),
            q + n <= s@.len(),
            k <= n,
            forall|j: int| q <= j < q + k ==> #[trigger] s@[j] == '`',
        decreases n - k,
    {
        if s[q + k] != '`' {
            return false;
        }
        k = k + 1;
    }
    true
}

fn search_ticks(s: &Vec<char>, from: usize, n: usize) -> (r: Option<usize>)
    requires
        from <= s@.len(),
        n >= 1,
    ensures
        match r {
            Some(q) => find_ticks(s@, from as int, n as int) == Some(q as int),
            None => find_ticks(s@, from as int, n as int) is None,
        },
{
    let mut q: usize = from;
    if n > s.len() {
        return None;
    }
    while q <= s.len() - n
        invariant
            from <= q,
            n <= s@.len(),
            n >= 1,
            find_ticks(s@, from as int, n as int) == find_ticks(s@, q as int, n as int),
        decreases s@.len() - q,
    {
        if ticks_start_at(s, q, n) {
            return Some(q);
        }
        q = q + 1;
    }
    None
}

// ---- words ----

/// The value of a word read from `k` on: whitespace outside double quotes
/// ends it, double quotes group, and a backslash takes the next character
/// literally.
pub open spec fn word_value(s: Seq<char>, k: int, quoted: bool, escaped: bool) -> Seq<char>
    decreases s.len() - k,
{
    if k < 0 || k >= s.len() {
        Seq::empty()
    } else if escaped {
        seq![s[k]] + word_value(s, k + 1, quoted, false)
    } else if !quoted && is_ws(s[k]) {
        Seq::empty()
    } else if s[k] == '"' {
        word_value(s, k + 1, !quoted, false)
    } else if s[k] == '\\' {
        word_value(s, k + 1, quoted, true)
    } else {
        seq![s[k]] + word_value(s, k + 1, quoted, false)
    }
}

/// Where the word read from `k` on ends.
pub open spec fn word_end(s: Seq<char>, k: int, quoted: bool, escaped: bool) -> int
    decreases s.len() - k,
{
    if k < 0 || k >= s.len() {
        k
    } else if escaped {
        word_end(s, k + 1, quoted, false)
    } else if !quoted && is_ws(s[k]) {
        k
    } else if s[k] == '"' {
        word_end(s, k + 1, !quoted, false)
    } else if s[k] == '\\' {
        word_end(s, k + 1, quoted, true)
    } else {
        word_end(s, k + 1, quoted, false)
    }
}

proof fn lemma_word_end(s: Seq<char>, k: int, quoted: bool, escaped: bool)
    requires
        0 <= k <= s.len(),
    ensures
        k <= word_end(s, k, quoted, escaped) <= s.len(),
    decreases s.len() - k,
{
    if k < s.len() {
        if escaped {
            lemma_word_end(s, k + 1, quoted, false);
        } else if !quoted && is_ws(s[k]) {
        } else if s[k] == '"' {
            lemma_word_end(s, k + 1, !quoted, false);
        } else if s[k] == '\\' {
            lemma_word_end(s, k + 1, quoted, true);
        } else {
            lemma_word_end(s, k + 1, quoted, false);
        }
    }
}

/// The leading token of `s[pos..]`, after whitespace: a backtick run up to
/// the next run of as many backticks, or else a word. Its value and end.
pub open spec fn read_token(s: Seq<char>, pos: int) -> Option<(Seq<char>, int)> {
    let p = skip_ws(s, pos);
    if p < 0 || p >= s.len() {
        None
    } else if s[p] == '`' {
        let n = tick_run(s, p);
        match find_ticks(s, p + n, n) {
            Some(q) => Some((s.subrange(p, q + n), q + n)),
            None => Some((word_value(s, p, false, false), word_end(s, p, false, false))),
        }
    } else {
        Some((word_value(s, p, false, false), word_end(s, p, false, false)))
    }
}

fn read_word(s: &Vec<char>, p: usize) -> (r: (String, usize))
    requires
        p <= s@.len(),
    ensures
        r.0@ == word_value(s@, p as int, false, false),
        r.1 == word_end(s@, p as int, false, false),
{
    let mut out = String::new();
    let mut k: usize = p;
    let mut quoted = false;
    let mut escaped = false;
    proof { lemma_word_end(s@, p as int, false, false); }
    while k < s.len()
        invariant
            p <= k <= s@.len(),
            out@ + word_value(s@, k as int, quoted, escaped) == word_value(s@, p as int, false, false),
            word_end(s@, k as int, quoted, escaped) == word_end(s@, p as int, false, false),
        decreases s@.len() - k,
    {
        let c = s[k];
        if escaped {
            proof { assert(out@.push(c) + word_value(s@, k + 1, quoted, false) =~= out@ + word_value(s@, k as int, quoted, escaped)); }
            push_char(&mut out, c);
            escaped = false;
        } else if !quoted && is_whitespace(c) {
            proof { assert(out@ + word_value(s@, k as int, quoted, escaped) =~= out@); }
            return (out, k);
        } else if c == '"' {
            quoted = !quoted;
        } else if c == '\\' {
            escaped = true;
        } else {
            proof { assert(out@.push(c) + word_value(s@, k + 1, quoted, false) =~= out@ + word_value(s@, k as int, quoted, escaped)); }
            push_char(&mut out, c);
        }
        k = k + 1;
    }
    proof {
        assert(out@ + word_value(s@, k as int, quoted, escaped) =~= out@);
    }
    (out, k)
}

pub proof fn lemma_read_token(s: Seq<char>, pos: int)
    requires
        0 <= pos <= s.len(),
    ensures
        match read_token(s, pos) {
            Some((t, end)) => pos < end <= s.len(),
            None => skip_ws(s, pos) >= s.len(),
        },
{
    crate::text::lemma_skip_ws_bounds(s, pos);
    let p = skip_ws(s, pos);
    if p < s.len() {
        lemma_word_end(s, p, false, false);
        lemma_word_end(s, p + 1, false, false);
        if s[p] == '`' {
            lemma_tick_run(s, p);
            lemma_find_ticks(s, p + tick_run(s, p), tick_run(s, p));
        }
        assert(!is_ws(s[p]));
        if s[p] == '"' {
            lemma_word_end(s, p + 1, true, false);
        } else if s[p] == '\\' {
            lemma_word_end(s, p + 1, false, true);
        }
    }
}

/// Reads the leading token of `s[pos..]`.
pub fn next_token(s: &Vec<char>, pos: usize) -> (r: Option<(String, usize)>)
    requires
        pos <= s@.len(),
    ensures
        match r {
            Some((t, end)) => read_token(s@, pos as int) == Some((t@, end as int)) && pos < end <= s@.len(),
            None => read_token(s@, pos as int) is None,
        },
{
    proof { lemma_read_token(s@, pos as int); }
    let p = skip_whitespace(s, pos);
    if p >= s.len() {
        return None;
    }
    if s[p] == '`' {
        proof { lemma_tick_run(s@, p as int); }
        let n = count_ticks(s, p);
        match search_ticks(s, p + n, n) {
            Some(q) => {
                proof { lemma_find_ticks(s@, (p + n) as int, n as int); }
                let t = string_of_span(s, p, q + n);
                return Some((t, q + n));
            },
            None => {},
        }
    }
    let (t, end) = read_word(s, p);
    Some((t, end))
}

// ---- conversions ----

pub open spec fn is_digit(c: char) -> bool {
    '0' <= c && c <= '9'
}

/// The number that a run of decimal digits spells.
pub open spec fn digits_value(d: Seq<char>) -> nat
    decreases d.len(),
{
    if d.len() == 0 {
        0
    } else {
        digits_value(d.drop_last()) * 10 + (d.last() as u32 - '0' as u32) as nat
    }
}

/// The text after an optional leading `+`.
pub open spec fn unsigned_digits(t: Seq<char>) -> Seq<char> {
    if t.len() > 0 && t[0] == '+' {
        t.drop_first()
    } else {
        t
    }
}

/// Decimal `u32` syntax as `u32::from_str` reads it: an optional `+`, then
/// one or more digits, with a value that fits.
pub open spec fn parse_u32_spec(t: Seq<char>) -> Option<u32> {
    let d = unsigned_digits(t);
    if d.len() > 0 && (forall|k: int| 0 <= k < d.len() ==> is_digit(#[trigger] d[k])) && digits_value(d) <= u32::MAX {
        Some(digits_value(d) as u32)
    } else {
        None
    }
}

proof fn lemma_digits_grow(d: Seq<char>, k: int)
    requires
        0 <= k <= d.len(),
        forall|j: int| 0 <= j < d.len() ==> is_digit(#[trigger] d[j]),
    ensures
        digits_value(d.subrange(0, k)) <= digits_value(d),
    decreases d.len() - k,
{
    if k < d.len() {
        lemma_digits_grow(d, k + 1);
        let a = d.subrange(0, k + 1);
        assert(a.drop_last() =~= d.subrange(0, k));
    } else {
        assert(d.subrange(0, k) =~= d);
    }
}

pub fn parse_u32(t: &Vec<char>) -> (r: Option<u32>)
    ensures
        r == parse_u32_spec(t@),
{
    let start: usize = if t.len() > 0 && t[0] == '+' { 1 } else { 0 };
    let ghost d = unsigned_digits(t@);
    assert(d =~= t@.subrange(start as int, t@.len() as int));
    if start >= t.len() {
        return None;
    }
    let mut k: usize = start;
    let mut acc: u64 = 0;
    while k < t.len()
        invariant
            start <= k <= t@.len(),
            d == unsigned_digits(t@),
            d =~= t@.subrange(start as int, t@.len() as int),
            forall|j: int| 0 <= j < k - start ==> is_digit(#[trigger] d[j]),
            acc == digits_value(d.subrange(0, k - start)),
            acc <= u32::MAX,
        decreases t@.len() - k,
    {
        let c = t[k];
        if !('0' <= c && c <= '9') {
            proof {
                assert(!is_digit(d[k - start]));
                assert(parse_u32_spec(t@) is None);
            }
            return None;
        }
        let ghost pre = d.subrange(0, k - start);
        let next = acc * 10 + ((c as u32) - ('0' as u32)) as u64;
        proof {
            assert(d.subrange(0, k + 1 - start).drop_last() =~= pre);
        }
        if next > 0xFFFF_FFFF {
            proof {
                assert(next == digits_value(d.subrange(0, k + 1 - start)));
                if forall|j: int| 0 <= j < d.len() ==> is_digit(#[trigger] d[j]) {
                    lemma_digits_grow(d, k + 1 - start);
                    assert(digits_value(d) > u32::MAX);
                }
                assert(parse_u32_spec(t@) is None);
            }
            return None;
        }
        acc = next;
        k = k + 1;
    }
    proof { assert(d.subrange(0, d.len() as int) =~= d); }
    Some(acc as u32)
}

/// Index of the first `'\n'` at or after `k`, or the length.
pub open spec fn find_newline(s: Seq<char>, k: int) -> int
    decreases s.len() - k,
{
    if k < 0 || k >= s.len() || s[k] == '\n' {
        k
    } else {
        find_newline(s, k + 1)
    }
}

proof fn lemma_find_newline(s: Seq<char>, k: int)
    requires
        0 <= k <= s.len(),
    ensures
        k <= find_newline(s, k) <= s.len(),
    decreases s.len() - k,
{
    if k < s.len() && s[k] != '\n' {
        lemma_find_newline(s, k + 1);
    }
}

/// A code block: `n` backticks, non-empty content, `n` backticks. With three
/// backticks, a first line before a newline names the language.
pub open spec fn code_block_spec(t: Seq<char>) -> Option<(Seq<char>, Option<Seq<char>>)> {
    let n = tick_run(t, 0);
    if n >= 1 && t.len() > 2 * n && ticks_at(t, t.len() - n, n) {
        let inner = t.subrange(n, t.len() - n);
        let nl = find_newline(inner, 0);
        if n == 3 && nl < inner.len() {
            Some((inner.subrange(nl + 1, inner.len() as int), if nl > 0 { Some(inner.subrange(0, nl)) } else { None }))
        } else {
            Some((inner, None))
        }
    } else {
        None
    }
}

fn parse_code_block(t: &Vec<char>) -> (r: Option<CodeBlock>)
    ensures
        match r {
            Some(c) => code_block_spec(t@) == Some((c.code@, opt_view(c.language))),
            None => code_block_spec(t@) is None,
        },
{
    proof { lemma_tick_run(t@, 0); }
    let n = count_ticks(t, 0);
    if n < 1 || t.len() / 2 < n || t.len() - n <= n {
        return None;
    }
    if !ticks_start_at(t, t.len() - n, n) {
        return None;
    }
    let inner_end = t.len() - n;
    let ghost inner = t@.subrange(n as int, inner_end as int);
    let mut nl: usize = n;
    while nl < inner_end && t[nl] != '\n'
        invariant
            n <= nl <= inner_end <= t@.len(),
            inner == t@.subrange(n as int, inner_end as int),
            find_newline(inner, nl - n) == find_newline(inner, 0),
        decreases inner_end - nl,
    {
        nl = nl + 1;
    }
    proof { lemma_find_newline(inner, 0); }
    if n == 3 && nl < inner_end {
        let code = string_of_span(t, nl + 1, inner_end);
        proof { assert(inner.subrange(nl - n + 1, inner.len() as int) =~= t@.subrange(nl + 1, inner_end as int)); }
        let language = if nl > n {
            proof { assert(inner.subrange(0, nl - n) =~= t@.subrange(n as int, nl as int)); }
            Some(string_of_span(t, n, nl))
        } else {
            None
        };
        Some(CodeBlock { code, language })
    } else {
        let code = string_of_span(t, n, inner_end);
        Some(CodeBlock { code, language: None })
    }
}

/// `t` converted to a value of kind `k`, if it has that kind's syntax.
pub open spec fn convert_spec(k: ValueKind, t: Seq<char>) -> Option<ValueModel> {
    match k {
        ValueKind::Text => Some(ValueModel::Text(t)),
        ValueKind::Integer => match parse_u32_spec(t) {
            Some(n) => Some(ValueModel::Integer(n)),
            None => None,
        },
        ValueKind::Code => match code_block_spec(t) {
            Some((c, l)) => Some(ValueModel::Code(c, l)),
            None => None,
        },
    }
}

/// The error reported when `t` does not convert to kind `k`.
pub open spec fn conversion_error(k: ValueKind, t: Seq<char>) -> ErrorModel {
    ErrorModel {
        kind: if k == ValueKind::Integer { ErrorKindModel::InvalidInteger } else { ErrorKindModel::InvalidCodeBlock },
        literal: Some(t),
    }
}

/// Converts the text `t` to a value of kind `k`.
pub fn convert(k: ValueKind, t: String) -> (r: Result<ArgValue, ArgError>)
    ensures
        match r {
            Ok(v) => convert_spec(k, t@) == Some(v@),
            Err(e) => convert_spec(k, t@) is None && e@ == conversion_error(k, t@),
        },
{
    let chars = crate::text::chars_of(t.as_str());
    match k {
        ValueKind::Text => Ok(ArgValue::Text(t)),
        ValueKind::Integer => match parse_u32(&chars) {
            Some(n) => Ok(ArgValue::Integer(n)),
            None => Err(ArgError { kind: ArgErrorKind::InvalidInteger, literal: Some(t) }),
        },
        ValueKind::Code => match parse_code_block(&chars) {
            Some(c) => Ok(ArgValue::Code(c)),
            None => Err(ArgError { kind: ArgErrorKind::InvalidCodeBlock, literal: Some(t) }),
        },
    }
}

/// One token of `s[pos..]` converted to kind `k`, with the position after it.
pub open spec fn pop_spec(k: ValueKind, s: Seq<char>, pos: int) -> Result<(ValueModel, int), ErrorModel> {
    match read_token(s, pos) {
        None => Err(too_few()),
        Some((t, end)) => match convert_spec(k, t) {
            Some(v) => Ok((v, end)),
            None => Err(conversion_error(k, t)),
        },
    }
}

/// Consumes one token of `s[pos..]` and converts it to kind `k`.
pub fn pop_value(k: ValueKind, s: &Vec<char>, pos: usize) -> (r: Result<(ArgValue, usize), ArgError>)
    requires
        pos <= s@.len(),
    ensures
        match r {
            Ok((v, end)) => pop_spec(k, s@, pos as int) == Ok::<(ValueModel, int), ErrorModel>((v@, end as int)) && pos < end <= s@.len(),
            Err(e) => pop_spec(k, s@, pos as int) == Err::<(ValueModel, int), ErrorModel>(e@),
        },
{
    match next_token(s, pos) {
        None => Err(too_few_arguments()),
        Some((t, end)) => match convert(k, t) {
            Ok(v) => Ok((v, end)),
            Err(e) => Err(e),
        },
    }
}

} // verus!
