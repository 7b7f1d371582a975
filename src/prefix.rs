//! The prefix resolver: decides whether a message invokes the bot, and
//! splits it into the prefix and the text after it.
use vstd::prelude::*;
use crate::text::{chars_of, string_of_span};
use vstd::string::StrSliceExecFns;

verus! {

/// Where a prefix pattern first matched the message, in characters.
#[derive(PartialEq, Eq, Structural, Clone, Copy, Debug)]
pub struct PatternMatch {
    pub start: usize,
    pub end: usize,
}

/// One further accepted prefix. A pattern is run by the caller, which hands
/// over where it first matched this message, if anywhere.
#[derive(Debug)]
pub enum Prefix {
    Literal(String),
    Pattern(Option<PatternMatch>),
}

/// `msg` starts with `p`.
pub open spec fn starts_with(msg: Seq<char>, p: Seq<char>) -> bool {
    p.len() <= msg.len() && msg.subrange(0, p.len() as int) == p
}

/// Length of the prefix that entry `e` accepts at the start of `msg`.
pub open spec fn entry_hit(msg: Seq<char>, e: Prefix) -> Option<int> {
    match e {
        Prefix::Literal(p) => if starts_with(msg, p@) { Some(p@.len() as int) } else { None },
        Prefix::Pattern(Some(m)) => if m.start == 0 && m.end <= msg.len() { Some(m.end as int) } else { None },
        Prefix::Pattern(None) => None,
    }
}

/// Length of the prefix that the first accepting entry of `entries[k..]` takes.
pub open spec fn additional_hit(msg: Seq<char>, entries: Seq<Prefix>, k: int) -> Option<int>
    decreases entries.len() - k,
{
    if k < 0 || k >= entries.len() {
        None
    } else {
        match entry_hit(msg, entries[k]) {
            Some(n) => Some(n),
            None => additional_hit(msg, entries, k + 1),
        }
    }
}

/// Length of the prefix that the dynamic prefix, the fixed prefix or the
/// additional prefixes accept, tried in that order.
pub open spec fn configured_hit(msg: Seq<char>, dynamic_prefix: Option<Seq<char>>, prefix: Option<Seq<char>>, additional: Seq<Prefix>) -> Option<int> {
    match dynamic_prefix {
        Some(d) if starts_with(msg, d) => Some(d.len() as int),
        _ => match prefix {
            Some(p) if starts_with(msg, p) => Some(p.len() as int),
            _ => additional_hit(msg, additional, 0),
        },
    }
}

pub open spec fn digit_char(d: int) -> char {
    seq!['0', '1', '2', '3', '4', '5', '6', '7', '8', '9'][d]
}

/// Decimal digits of `n`, as `u64::to_string` writes them.
pub open spec fn decimal(n: nat) -> Seq<char>
    decreases n,
{
    if n < 10 {
        seq![digit_char(n as int)]
    } else {
        decimal(n / 10).push(digit_char((n % 10) as int))
    }
}

/// Index of the first character at or after `k` that is not `'!'`.
pub open spec fn skip_bangs(msg: Seq<char>, k: int) -> int
    decreases msg.len() - k,
{
    if k < 0 || k >= msg.len() || msg[k] != '!' {
        k
    } else {
        skip_bangs(msg, k + 1)
    }
}

/// Length of a leading mention of user `id`: `<@`, any `!`, the id, `>`.
pub open spec fn mention_hit(msg: Seq<char>, id: u64) -> Option<int> {
    let d = decimal(id as nat);
    let b = skip_bangs(msg, 2);
    if starts_with(msg, seq!['<', '@']) && b + d.len() < msg.len() && msg.subrange(b, b + d.len()) == d
        && msg[b + d.len()] == '>' {
        Some(b + d.len() + 1)
    } else {
        None
    }
}

/// The five strategies in order; the fourth hands over its split as is.
pub open spec fn strip_spec(
    msg: Seq<char>,
    dynamic_prefix: Option<Seq<char>>,
    prefix: Option<Seq<char>>,
    additional: Seq<Prefix>,
    stripped: Option<(Seq<char>, Seq<char>)>,
    mention_of: Option<u64>,
) -> Option<(Seq<char>, Seq<char>)> {
    match configured_hit(msg, dynamic_prefix, prefix, additional) {
        Some(n) => Some((msg.subrange(0, n), msg.subrange(n, msg.len() as int))),
        None => match stripped {
            Some(pair) => Some(pair),
            None => match mention_of {
                Some(id) => match mention_hit(msg, id) {
                    Some(n) => Some((msg.subrange(0, n), msg.subrange(n, msg.len() as int))),
                    None => None,
                },
                None => None,
            },
        },
    }
}

fn has_prefix(msg: &Vec<char>, p: &String) -> (r: bool)
    ensures
        r == starts_with(msg@, p@),
{
    let pc = chars_of(p.as_str());
    if pc.len() > msg.len() {
        return false;
    }
    let mut k: usize = 0;
    while k < pc.len()
        invariant
            pc@ == p@,
            pc@.len() <= msg@.len(),
            k <= pc@.len(),
            forall|j: int| 0 <= j < k ==> msg@[j] == pc@[j],
        decreases pc@.len() - k,
    {
        if msg[k] != pc[k] {
            proof { assert(msg@.subrange(0, pc@.len() as int)[k as int] != p@[k as int]); }
            return false;
        }
        k = k + 1;
    }
    proof { assert(msg@.subrange(0, pc@.len() as int) =~= p@); }
    true
}

fn additional_at(msg: &Vec<char>, entries: &Vec<Prefix>) -> (r: Option<usize>)
    ensures
        match r {
            Some(n) => additional_hit(msg@, entries@, 0) == Some(n as int) && n <= msg@.len(),
            None => additional_hit(msg@, entries@, 0) is None,
        },
{
    let mut k: usize = 0;
    while k < entries.len()
        invariant
            k <= entries@.len(),
            additional_hit(msg@, entries@, 0) == additional_hit(msg@, entries@, k as int),
        decreases entries@.len() - k,
    {
        match &entries[k] {
            Prefix::Literal(p) => {
                if has_prefix(msg, p) {
                    return Some(p.as_str().unicode_len());
                }
            },
            Prefix::Pattern(Some(m)) => {
                if m.start == 0 && m.end <= msg.len() {
                    return Some(m.end);
                }
            },
            Prefix::Pattern(None) => {},
        }
        k = k + 1;
    }
    None
}

fn configured_at(msg: &Vec<char>, dynamic_prefix: &Option<String>, prefix: &Option<String>, additional: &Vec<Prefix>) -> (r: Option<usize>)
    ensures
        match r {
            Some(n) => configured_hit(msg@, opt_seq(*dynamic_prefix), opt_seq(*prefix), additional@) == Some(n as int)
                && n <= msg@.len(),
            None => configured_hit(msg@, opt_seq(*dynamic_prefix), opt_seq(*prefix), additional@) is None,
        },
{
    if let Some(d) = dynamic_prefix {
        if has_prefix(msg, d) {
            return Some(d.as_str().unicode_len());
        }
    }
    if let Some(p) = prefix {
        if has_prefix(msg, p) {
            return Some(p.as_str().unicode_len());
        }
    }
    additional_at(msg, additional)
}

pub open spec fn opt_seq(o: Option<String>) -> Option<Seq<char>> {
    match o {
        Some(s) => Some(s@),
        None => None,
    }
}

fn digit_of(d: u64) -> (c: char)
    requires
        d < 10,
    ensures
        c == digit_char(d as int),
{
    let digits = ['0', '1', '2', '3', '4', '5', '6', '7', '8', '9'];
    proof { assert(digits@ =~= seq!['0', '1', '2', '3', '4', '5', '6', '7', '8', '9']); }
    digits[d as usize]
}

/// The decimal digits of `n`.
pub fn decimal_chars(n: u64) -> (r: Vec<char>)
    ensures
        r@ == decimal(n as nat),
    decreases n,
{
    if n < 10 {
        let v = vec![digit_of(n)];
        proof { assert(v@ =~= seq![digit_char(n as int)]); }
        v
    } else {
        let mut v = decimal_chars(n / 10);
        v.push(digit_of(n % 10));
        v
    }
}

fn mention_at(msg: &Vec<char>, id: u64) -> (r: Option<usize>)
    ensures
        match r {
            Some(n) => mention_hit(msg@, id) == Some(n as int) && n <= msg@.len(),
            None => mention_hit(msg@, id) is None,
        },
{
    if msg.len() < 2 || msg[0] != '<' || msg[1] != '@' {
        proof {
            if msg@.len() >= 2 {
                assert(msg@.subrange(0, 2)[0] == msg@[0]);
                assert(msg@.subrange(0, 2)[1] == msg@[1]);
            }
        }
        return None;
    }
    proof { assert(msg@.subrange(0, 2) =~= seq!['<', '@']); }
    let mut b: usize = 2;
    while b < msg.len() && msg[b] == '!'
        invariant
            2 <= b <= msg@.len(),
            skip_bangs(msg@, b as int) == skip_bangs(msg@, 2),
        decreases msg@.len() - b,
    {
        b = b + 1;
    }
    let d = decimal_chars(id);
    if d.len() >= msg.len() - b {
        return None;
    }
    let len = msg.len();
    assert(skip_bangs(msg@, 2) == b);
    let mut k: usize = 0;
    while k < d.len()
        invariant
            len == msg@.len(),
            d@ == decimal(id as nat),
            b == skip_bangs(msg@, 2),
            starts_with(msg@, seq!['<', '@']),
            b + d@.len() < msg@.len(),
            k <= d@.len(),
            forall|j: int| 0 <= j < k ==> msg@[b + j] == d@[j],
        decreases d@.len() - k,
    {
        if msg[b + k] != d[k] {
            proof { assert(msg@.subrange(b as int, b + d@.len())[k as int] != d@[k as int]); }
            return None;
        }
        k = k + 1;
    }
    proof { assert(msg@.subrange(b as int, b + d@.len()) =~= d@); }
    if msg[b + d.len()] != '>' {
        return None;
    }
    Some(b + d.len() + 1)
}

/// Splits `msg` into the prefix that invokes the bot and the text after it,
/// trying in order: the dynamic prefix (what the caller's dynamic prefix
/// callback returned for this message), the fixed prefix, the additional
/// prefixes, the stripped dynamic prefix (what the caller's callback for it
/// returned), and a mention of the bot user `mention_of`. `None` when no
/// strategy accepts the message, which is then ordinary chat.
/// A caller that wants to run the stripped dynamic prefix callback only as a
/// fallback uses `match_configured_prefix` and `strip_mention` around it.
pub fn strip_prefix(
    msg: &str,
    dynamic_prefix: &Option<String>,
    prefix: &Option<String>,
    additional_prefixes: &Vec<Prefix>,
    stripped_dynamic_prefix: Option<(String, String)>,
    mention_of: Option<u64>,
) -> (r: Option<(String, String)>)
    ensures
        match r {
            Some((p, rest)) => strip_spec(msg@, opt_seq(*dynamic_prefix), opt_seq(*prefix), additional_prefixes@,
                pair_seq(stripped_dynamic_prefix), mention_of) == Some((p@, rest@)),
            None => strip_spec(msg@, opt_seq(*dynamic_prefix), opt_seq(*prefix), additional_prefixes@,
                pair_seq(stripped_dynamic_prefix), mention_of) is None,
        },
{
    let s = chars_of(msg);
    match configured_at(&s, dynamic_prefix, prefix, additional_prefixes) {
        Some(n) => {
            return Some((string_of_span(&s, 0, n), string_of_span(&s, n, s.len())));
        },
        None => {},
    }
    if let Some(pair) = stripped_dynamic_prefix {
        return Some(pair);
    }
    if let Some(id) = mention_of {
        if let Some(n) = mention_at(&s, id) {
            return Some((string_of_span(&s, 0, n), string_of_span(&s, n, s.len())));
        }
    }
    None
}

pub open spec fn pair_seq(o: Option<(String, String)>) -> Option<(Seq<char>, Seq<char>)> {
    match o {
        Some((a, b)) => Some((a@, b@)),
        None => None,
    }
}

/// The first three strategies alone: the dynamic prefix, the fixed prefix,
/// then the additional prefixes. A caller that runs the stripped dynamic
/// prefix callback only when these fail calls this first.
pub fn match_configured_prefix(
    msg: &str,
    dynamic_prefix: &Option<String>,
    prefix: &Option<String>,
    additional_prefixes: &Vec<Prefix>,
) -> (r: Option<(String, String)>)
    ensures
        match r {
            Some((p, rest)) => exists|n: int| configured_hit(msg@, opt_seq(*dynamic_prefix), opt_seq(*prefix), additional_prefixes@) == Some(n)
                && 0 <= n <= msg@.len() && p@ == msg@.subrange(0, n) && rest@ == msg@.subrange(n, msg@.len() as int),
            None => configured_hit(msg@, opt_seq(*dynamic_prefix), opt_seq(*prefix), additional_prefixes@) is None,
        },
{
    let s = chars_of(msg);
    match configured_at(&s, dynamic_prefix, prefix, additional_prefixes) {
        Some(n) => Some((string_of_span(&s, 0, n), string_of_span(&s, n, s.len()))),
        None => None,
    }
}

/// The last strategy alone: a leading mention of the bot user `id`.
pub fn strip_mention(msg: &str, id: u64) -> (r: Option<(String, String)>)
    ensures
        match r {
            Some((p, rest)) => exists|n: int| mention_hit(msg@, id) == Some(n)
                && 0 <= n <= msg@.len() && p@ == msg@.subrange(0, n) && rest@ == msg@.subrange(n, msg@.len() as int),
            None => mention_hit(msg@, id) is None,
        },
{
    let s = chars_of(msg);
    match mention_at(&s, id) {
        Some(n) => Some((string_of_span(&s, 0, n), string_of_span(&s, n, s.len()))),
        None => None,
    }
}

} // verus!
