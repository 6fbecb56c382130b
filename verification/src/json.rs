//! The textual form of the files this system owns: the binary index and the
//! registry manifests.
//!
//! Both are JSON objects. The index maps identifiers to installed file
//! names; a manifest holds the fields `id`, `repo` and `versions`, the last
//! being an object mapping version labels to branch names. The grammar here
//! covers exactly these shapes; a file of any other shape is rejected rather
//! than silently replaced by an empty structure.

use vstd::prelude::*;

verus! {

use crate::table::{StrTable, distinct_keys, pairs_map};
use crate::text::from_chars;

broadcast use vstd::string::group_string_axioms;

// ---------------------------------------------------------------------------
// The grammar, as specification functions over character sequences.
// A parse result pairs what was recognized with the index just past it.
// ---------------------------------------------------------------------------
pub open spec fn is_ws(c: char) -> bool {
    c == ' ' || c == '\n' || c == '\t' || c == '\r'
}

/// The first position at or after `i` holding no whitespace.
pub open spec fn ws_end(s: Seq<char>, i: int) -> int
    decreases s.len() - i,
{
    if 0 <= i < s.len() && is_ws(s[i]) {
        ws_end(s, i + 1)
    } else {
        i
    }
}

pub proof fn lemma_ws_end_bounds(s: Seq<char>, i: int)
    requires
        0 <= i <= s.len(),
    ensures
        i <= ws_end(s, i) <= s.len(),
    decreases s.len() - i,
{
    if 0 <= i < s.len() && is_ws(s[i]) {
        lemma_ws_end_bounds(s, i + 1);
    }
}

/// What a backslash escape stands for.
pub open spec fn unescaped(c: char) -> Option<char> {
    if c == '"' {
        Some('"')
    } else if c == '\\' {
        Some('\\')
    } else if c == '/' {
        Some('/')
    } else if c == 'n' {
        Some('\n')
    } else if c == 't' {
        Some('\t')
    } else if c == 'r' {
        Some('\r')
    } else if c == 'b' {
        Some('\u{8}')
    } else if c == 'f' {
        Some('\u{c}')
    } else {
        None
    }
}

/// The rest of a string token, starting just after the opening quote:
/// the decoded contents and the index past the closing quote.
pub open spec fn string_body(s: Seq<char>, i: int) -> Option<(Seq<char>, int)>
    decreases s.len() - i,
{
    if !(0 <= i < s.len()) {
        None
    } else if s[i] == '"' {
        Some((Seq::empty(), i + 1))
    } else if s[i] == '\\' {
        if i + 1 < s.len() {
            match unescaped(s[i + 1]) {
                Some(c) => match string_body(s, i + 2) {
                    Some(r) => Some((seq![c] + r.0, r.1)),
                    None => None,
                },
                None => None,
            }
        } else {
            None
        }
    } else {
        match string_body(s, i + 1) {
            Some(r) => Some((seq![s[i]] + r.0, r.1)),
            None => None,
        }
    }
}

pub proof fn lemma_string_body_bounds(s: Seq<char>, i: int)
    requires
        string_body(s, i) is Some,
    ensures
        i < string_body(s, i)->Some_0.1 <= s.len(),
    decreases s.len() - i,
{
    if 0 <= i < s.len() {
        if s[i] == '"' {
        } else if s[i] == '\\' {
            lemma_string_body_bounds(s, i + 2);
        } else {
            lemma_string_body_bounds(s, i + 1);
        }
    }
}

/// A whole string token at `i`, opening quote included.
pub open spec fn string_token(s: Seq<char>, i: int) -> Option<(Seq<char>, int)> {
    if 0 <= i < s.len() && s[i] == '"' {
        string_body(s, i + 1)
    } else {
        None
    }
}

pub proof fn lemma_string_token_bounds(s: Seq<char>, i: int)
    requires
        string_token(s, i) is Some,
    ensures
        i + 1 < string_token(s, i)->Some_0.1 <= s.len(),
{
    lemma_string_body_bounds(s, i + 1);
}

/// One `"key" : "value"` member, leading whitespace included.
pub open spec fn member(s: Seq<char>, i: int) -> Option<((Seq<char>, Seq<char>), int)> {
    let k = ws_end(s, i);
    match string_token(s, k) {
        Some((key, j)) => {
            let c = ws_end(s, j);
            if 0 <= c < s.len() && s[c] == ':' {
                match string_token(s, ws_end(s, c + 1)) {
                    Some((value, m)) => Some(((key, value), m)),
                    None => None,
                }
            } else {
                None
            }
        },
        None => None,
    }
}

pub proof fn lemma_member_bounds(s: Seq<char>, i: int)
    requires
        0 <= i <= s.len(),
        member(s, i) is Some,
    ensures
        i < member(s, i)->Some_0.1 <= s.len(),
{
    let k = ws_end(s, i);
    lemma_ws_end_bounds(s, i);
    lemma_string_token_bounds(s, k);
    let j = string_token(s, k)->Some_0.1;
    let c = ws_end(s, j);
    lemma_ws_end_bounds(s, j);
    lemma_ws_end_bounds(s, c + 1);
    lemma_string_token_bounds(s, ws_end(s, c + 1));
}

/// The members of an object, starting just after `{` or a `,`, up to and
/// including the closing `}`.
pub open spec fn members(s: Seq<char>, i: int) -> Option<(Seq<(Seq<char>, Seq<char>)>, int)>
    decreases s.len() - i,
    when 0 <= i <= s.len()
    via members_decreases
{
    match member(s, i) {
        Some((kv, j)) => {
            let c = ws_end(s, j);
            if 0 <= c < s.len() && s[c] == ',' {
                match members(s, c + 1) {
                    Some((rest, m)) => Some((seq![kv] + rest, m)),
                    None => None,
                }
            } else if 0 <= c < s.len() && s[c] == '}' {
                Some((seq![kv], c + 1))
            } else {
                None
            }
        },
        None => None,
    }
}

#[via_fn]
proof fn members_decreases(s: Seq<char>, i: int) {
    match member(s, i) {
        Some((kv, j)) => {
            lemma_member_bounds(s, i);
            lemma_ws_end_bounds(s, j);
        },
        None => {},
    }
}

/// A whole object token at `i`: `{` ... `}`.
pub open spec fn object_token(s: Seq<char>, i: int) -> Option<(Seq<(Seq<char>, Seq<char>)>, int)> {
    if 0 <= i < s.len() && s[i] == '{' {
        let j = ws_end(s, i + 1);
        if 0 <= j < s.len() && s[j] == '}' {
            Some((Seq::empty(), j + 1))
        } else {
            members(s, i + 1)
        }
    } else {
        None
    }
}

/// A complete text holding one object of string values and nothing else,
/// with distinct keys. This is the shape of the binary index file.
pub open spec fn str_object_text(s: Seq<char>) -> Option<Seq<(Seq<char>, Seq<char>)>> {
    match object_token(s, ws_end(s, 0)) {
        Some((ps, j)) => {
            if ws_end(s, j) == s.len() && distinct_keys(ps) {
                Some(ps)
            } else {
                None
            }
        },
        None => None,
    }
}

pub proof fn lemma_members_bounds(s: Seq<char>, i: int)
    requires
        0 <= i <= s.len(),
        members(s, i) is Some,
    ensures
        i < members(s, i)->Some_0.1 <= s.len(),
    decreases s.len() - i,
{
    let (kv, j) = member(s, i)->Some_0;
    lemma_member_bounds(s, i);
    let c = ws_end(s, j);
    lemma_ws_end_bounds(s, j);
    if 0 <= c < s.len() && s[c] == ',' {
        lemma_members_bounds(s, c + 1);
    }
}

pub proof fn lemma_object_token_bounds(s: Seq<char>, i: int)
    requires
        0 <= i <= s.len(),
        object_token(s, i) is Some,
    ensures
        i < object_token(s, i)->Some_0.1 <= s.len(),
{
    let j = ws_end(s, i + 1);
    lemma_ws_end_bounds(s, i + 1);
    if !(0 <= j < s.len() && s[j] == '}') {
        lemma_members_bounds(s, i + 1);
    }
}

// ---------------------------------------------------------------------------
// The manifest grammar: an object whose member values are strings or one
// object of strings.
// ---------------------------------------------------------------------------
/// A manifest member value.
pub enum Mval {
    St(Seq<char>),
    Ob(Seq<(Seq<char>, Seq<char>)>),
}

/// A member value at `i`: a string token or an object-of-strings token.
pub open spec fn mvalue(s: Seq<char>, i: int) -> Option<(Mval, int)> {
    if 0 <= i < s.len() && s[i] == '"' {
        match string_token(s, i) {
            Some((v, j)) => Some((Mval::St(v), j)),
            None => None,
        }
    } else if 0 <= i < s.len() && s[i] == '{' {
        match object_token(s, i) {
            Some((ps, j)) => Some((Mval::Ob(ps), j)),
            None => None,
        }
    } else {
        None
    }
}

pub proof fn lemma_mvalue_bounds(s: Seq<char>, i: int)
    requires
        0 <= i <= s.len(),
        mvalue(s, i) is Some,
    ensures
        i < mvalue(s, i)->Some_0.1 <= s.len(),
{
    if 0 <= i < s.len() && s[i] == '"' {
        lemma_string_token_bounds(s, i);
    } else {
        lemma_object_token_bounds(s, i);
    }
}

/// One `"key" : value` manifest member, leading whitespace included.
pub open spec fn mmember(s: Seq<char>, i: int) -> Option<((Seq<char>, Mval), int)> {
    let k = ws_end(s, i);
    match string_token(s, k) {
        Some((key, j)) => {
            let c = ws_end(s, j);
            if 0 <= c < s.len() && s[c] == ':' {
                match mvalue(s, ws_end(s, c + 1)) {
                    Some((value, m)) => Some(((key, value), m)),
                    None => None,
                }
            } else {
                None
            }
        },
        None => None,
    }
}

pub proof fn lemma_mmember_bounds(s: Seq<char>, i: int)
    requires
        0 <= i <= s.len(),
        mmember(s, i) is Some,
    ensures
        i < mmember(s, i)->Some_0.1 <= s.len(),
{
    let k = ws_end(s, i);
    lemma_ws_end_bounds(s, i);
    lemma_string_token_bounds(s, k);
    let j = string_token(s, k)->Some_0.1;
    let c = ws_end(s, j);
    lemma_ws_end_bounds(s, j);
    lemma_ws_end_bounds(s, c + 1);
    lemma_mvalue_bounds(s, ws_end(s, c + 1));
}

/// The members of a manifest object, starting just after `{` or a `,`, up
/// to and including the closing `}`.
pub open spec fn mmembers(s: Seq<char>, i: int) -> Option<(Seq<(Seq<char>, Mval)>, int)>
    decreases s.len() - i,
    when 0 <= i <= s.len()
    via mmembers_decreases
{
    match mmember(s, i) {
        Some((kv, j)) => {
            let c = ws_end(s, j);
            if 0 <= c < s.len() && s[c] == ',' {
                match mmembers(s, c + 1) {
                    Some((rest, m)) => Some((seq![kv] + rest, m)),
                    None => None,
                }
            } else if 0 <= c < s.len() && s[c] == '}' {
                Some((seq![kv], c + 1))
            } else {
                None
            }
        },
        None => None,
    }
}

#[via_fn]
proof fn mmembers_decreases(s: Seq<char>, i: int) {
    match mmember(s, i) {
        Some((kv, j)) => {
            lemma_mmember_bounds(s, i);
            lemma_ws_end_bounds(s, j);
        },
        None => {},
    }
}

/// A complete text holding one manifest object and nothing else.
pub open spec fn manifest_text(s: Seq<char>) -> Option<Seq<(Seq<char>, Mval)>> {
    let start = ws_end(s, 0);
    if 0 <= start < s.len() && s[start] == '{' {
        let j = ws_end(s, start + 1);
        if 0 <= j < s.len() && s[j] == '}' {
            if ws_end(s, j + 1) == s.len() {
                Some(Seq::empty())
            } else {
                None
            }
        } else {
            match mmembers(s, start + 1) {
                Some((ms, p)) => {
                    if ws_end(s, p) == s.len() {
                        Some(ms)
                    } else {
                        None
                    }
                },
                None => None,
            }
        }
    } else {
        None
    }
}

/// The value under the first member named `k`.
pub open spec fn mfind(ms: Seq<(Seq<char>, Mval)>, k: Seq<char>) -> Option<Mval>
    decreases ms.len(),
{
    if ms.len() == 0 {
        None
    } else if ms[0].0 == k {
        Some(ms[0].1)
    } else {
        mfind(ms.drop_first(), k)
    }
}

pub open spec fn mkeys_distinct(ms: Seq<(Seq<char>, Mval)>) -> bool {
    forall|i: int, j: int| 0 <= i < j < ms.len() ==> ms[i].0 != ms[j].0
}

/// Every member is one of the three fields a manifest holds.
pub open spec fn manifest_keys_known(ms: Seq<(Seq<char>, Mval)>) -> bool {
    forall|i: int|
        0 <= i < ms.len() ==> (ms[i].0 == "id"@ || ms[i].0 == "repo"@ || ms[i].0 == "versions"@)
}

/// The fields a member list denotes, if it holds exactly the fields `id`,
/// `repo` and `versions`, each of the right shape, with no key repeated.
pub open spec fn fields_of(ms: Seq<(Seq<char>, Mval)>) -> Option<
    (Seq<char>, Seq<char>, Seq<(Seq<char>, Seq<char>)>),
> {
    if mkeys_distinct(ms) && manifest_keys_known(ms) {
        match (mfind(ms, "id"@), mfind(ms, "repo"@), mfind(ms, "versions"@)) {
            (Some(Mval::St(id)), Some(Mval::St(repo)), Some(Mval::Ob(vs))) => {
                if distinct_keys(vs) {
                    Some((id, repo, vs))
                } else {
                    None
                }
            },
            _ => None,
        }
    } else {
        None
    }
}

/// What a manifest text denotes: its identifier, its repository URL, and
/// its version mapping.
pub open spec fn manifest_fields(s: Seq<char>) -> Option<
    (Seq<char>, Seq<char>, Seq<(Seq<char>, Seq<char>)>),
> {
    match manifest_text(s) {
        Some(ms) => fields_of(ms),
        None => None,
    }
}

/// How `mfind` grows when one member is appended.
pub proof fn lemma_mfind_snoc(ms: Seq<(Seq<char>, Mval)>, item: (Seq<char>, Mval), k: Seq<char>)
    ensures
        mfind(ms.push(item), k) == (if mfind(ms, k) is Some {
            mfind(ms, k)
        } else if item.0 == k {
            Some(item.1)
        } else {
            None
        }),
    decreases ms.len(),
{
    if ms.len() == 0 {
        assert(ms.push(item)[0] == item);
        assert(ms.push(item).drop_first() =~= Seq::<(Seq<char>, Mval)>::empty());
    } else {
        assert(ms.push(item).drop_first() =~= ms.drop_first().push(item));
        lemma_mfind_snoc(ms.drop_first(), item, k);
    }
}

/// A found member is a member.
pub proof fn lemma_mfind_some_index(ms: Seq<(Seq<char>, Mval)>, k: Seq<char>)
    requires
        mfind(ms, k) is Some,
    ensures
        exists|i: int| 0 <= i < ms.len() && ms[i].0 == k && ms[i].1 == mfind(ms, k)->Some_0,
    decreases ms.len(),
{
    if ms.len() > 0 && ms[0].0 != k {
        lemma_mfind_some_index(ms.drop_first(), k);
        let i = choose|i: int|
            0 <= i < ms.drop_first().len() && ms.drop_first()[i].0 == k && ms.drop_first()[i].1
                == mfind(ms.drop_first(), k)->Some_0;
        assert(ms[i + 1].0 == k && ms[i + 1].1 == mfind(ms, k)->Some_0);
    }
}

/// A missing name is nowhere among the members.
pub proof fn lemma_mfind_none(ms: Seq<(Seq<char>, Mval)>, k: Seq<char>)
    requires
        mfind(ms, k) is None,
    ensures
        forall|i: int| 0 <= i < ms.len() ==> ms[i].0 != k,
    decreases ms.len(),
{
    if ms.len() > 0 {
        lemma_mfind_none(ms.drop_first(), k);
        assert forall|i: int| 0 <= i < ms.len() implies ms[i].0 != k by {
            if i > 0 {
                assert(ms.drop_first()[i - 1] == ms[i]);
            }
        }
    }
}

/// When nothing in `done` is named `k` but the next member is, the first
/// member named `k` of the whole list is that next member.
pub proof fn lemma_mfind_concat(
    done: Seq<(Seq<char>, Mval)>,
    rest: Seq<(Seq<char>, Mval)>,
    k: Seq<char>,
)
    requires
        mfind(done, k) is None,
        rest.len() > 0,
        rest[0].0 == k,
    ensures
        mfind(done + rest, k) == Some(rest[0].1),
    decreases done.len(),
{
    if done.len() == 0 {
        assert(done + rest =~= rest);
    } else {
        assert((done + rest).drop_first() =~= done.drop_first() + rest);
        lemma_mfind_concat(done.drop_first(), rest, k);
    }
}

// ---------------------------------------------------------------------------
// The canonical encoding, as specification functions.
// ---------------------------------------------------------------------------
/// How one character is written inside a string token.
pub open spec fn escaped_char(c: char) -> Seq<char> {
    if c == '"' {
        seq!['\\', '"']
    } else if c == '\\' {
        seq!['\\', '\\']
    } else {
        seq![c]
    }
}

pub open spec fn escaped(s: Seq<char>) -> Seq<char>
    decreases s.len(),
{
    if s.len() == 0 {
        Seq::empty()
    } else {
        escaped_char(s[0]) + escaped(s.drop_first())
    }
}

pub open spec fn string_text(s: Seq<char>) -> Seq<char> {
    seq!['"'] + escaped(s) + seq!['"']
}

pub open spec fn pairs_text(ps: Seq<(Seq<char>, Seq<char>)>) -> Seq<char>
    decreases ps.len(),
{
    if ps.len() == 0 {
        Seq::empty()
    } else if ps.len() == 1 {
        string_text(ps[0].0) + seq![':'] + string_text(ps[0].1)
    } else {
        string_text(ps[0].0) + seq![':'] + string_text(ps[0].1) + seq![','] + pairs_text(
            ps.drop_first(),
        )
    }
}

/// The canonical text of an object of string values.
pub open spec fn object_text(ps: Seq<(Seq<char>, Seq<char>)>) -> Seq<char> {
    seq!['{'] + pairs_text(ps) + seq!['}']
}

// ---------------------------------------------------------------------------
// The executable parser.
// ---------------------------------------------------------------------------
/// Whether `c` is whitespace.
fn ws_char(c: char) -> (r: bool)
    ensures
        r == is_ws(c),
{
    c == ' ' || c == '\n' || c == '\t' || c == '\r'
}

/// Advances past whitespace.
fn scan_ws(s: &[char], i: usize) -> (r: usize)
    requires
        i <= s@.len(),
    ensures
        r == ws_end(s@, i as int),
        i <= r <= s@.len(),
{
    let n = s.len();
    let mut j = i;
    while j < n && ws_char(s[j])
        invariant
            i <= j <= n,
            n == s@.len(),
            ws_end(s@, i as int) == ws_end(s@, j as int),
        decreases n - j,
    {
        j += 1;
    }
    proof {
        lemma_ws_end_bounds(s@, j as int);
    }
    j
}

/// The escape a character decodes to, if any.
fn unescape_char(c: char) -> (r: Option<char>)
    ensures
        r == unescaped(c),
{
    if c == '"' {
        Some('"')
    } else if c == '\\' {
        Some('\\')
    } else if c == '/' {
        Some('/')
    } else if c == 'n' {
        Some('\n')
    } else if c == 't' {
        Some('\t')
    } else if c == 'r' {
        Some('\r')
    } else if c == 'b' {
        Some('\u{8}')
    } else if c == 'f' {
        Some('\u{c}')
    } else {
        None
    }
}

/// Reads a string token at `i`; the decoded contents and the index past the
/// closing quote.
fn scan_string(s: &[char], i: usize) -> (r: Option<(Vec<char>, usize)>)
    ensures
        match r {
            Some(cj) => string_token(s@, i as int) == Some((cj.0@, cj.1 as int)) && cj.1 <= s@.len(),
            None => string_token(s@, i as int) is None,
        },
{
    let n = s.len();
    if !(i < n && s[i] == '"') {
        return None;
    }
    let mut acc: Vec<char> = Vec::new();
    let mut pos = i + 1;
    loop
        invariant_except_break
            match string_body(s@, pos as int) {
                Some(r) => string_body(s@, i + 1) == Some::<(Seq<char>, int)>((
                    acc@ + r.0,
                    r.1,
                )),
                None => string_body(s@, i + 1) is None,
            },
        invariant
            i + 1 <= pos <= n,
            n == s@.len(),
        ensures
            match string_body(s@, i + 1) {
                Some(r) => acc@ == r.0 && pos == r.1,
                None => false,
            },
        decreases n - pos,
    {
        if pos >= n {
            return None;
        }
        let c = s[pos];
        if c == '"' {
            proof {
                assert(string_body(s@, pos as int) == Some::<(Seq<char>, int)>((
                    Seq::empty(),
                    pos + 1,
                )));
                assert(acc@ + Seq::<char>::empty() =~= acc@);
            }
            pos = pos + 1;
            break ;
        } else if c == '\\' {
            if pos + 1 >= n {
                return None;
            }
            match unescape_char(s[pos + 1]) {
                Some(d) => {
                    proof {
                        let ghost r2 = string_body(s@, pos + 2);
                        if r2 is Some {
                            assert(acc@ + (seq![d] + r2->Some_0.0) =~= acc@.push(d)
                                + r2->Some_0.0);
                        }
                    }
                    acc.push(d);
                    pos = pos + 2;
                },
                None => {
                    return None;
                },
            }
        } else {
            proof {
                let ghost r2 = string_body(s@, pos + 1);
                if r2 is Some {
                    assert(acc@ + (seq![c] + r2->Some_0.0) =~= acc@.push(c) + r2->Some_0.0);
                }
            }
            acc.push(c);
            pos = pos + 1;
        }
    }
    Some((acc, pos))
}

/// Reads one `"key" : "value"` member starting at `i`.
fn scan_member(s: &[char], i: usize) -> (r: Option<(Vec<char>, Vec<char>, usize)>)
    requires
        i <= s@.len(),
    ensures
        match r {
            Some(kvj) => member(s@, i as int) == Some(((kvj.0@, kvj.1@), kvj.2 as int)) && i
                < kvj.2 <= s@.len(),
            None => member(s@, i as int) is None,
        },
{
    let k = scan_ws(s, i);
    match scan_string(s, k) {
        Some((key, j)) => {
            let c = scan_ws(s, j);
            if c < s.len() && s[c] == ':' {
                let v = scan_ws(s, c + 1);
                match scan_string(s, v) {
                    Some((value, m)) => {
                        proof {
                            lemma_member_bounds(s@, i as int);
                        }
                        Some((key, value, m))
                    },
                    None => None,
                }
            } else {
                None
            }
        },
        None => None,
    }
}

/// Reads an object-of-strings token at `i`, pairs as read, keys unchecked.
fn scan_object_token(s: &[char], i: usize) -> (r: Option<(Vec<(String, String)>, usize)>)
    requires
        i <= s@.len(),
    ensures
        match r {
            Some(pj) => object_token(s@, i as int) == Some((pj.0.deep_view(), pj.1 as int)) && pj.1
                <= s@.len(),
            None => object_token(s@, i as int) is None,
        },
{
    let n = s.len();
    if !(i < n && s[i] == '{') {
        return None;
    }
    let body = i + 1;
    let j = scan_ws(s, body);
    if j < n && s[j] == '}' {
        let v: Vec<(String, String)> = Vec::new();
        proof {
            assert(v.deep_view() =~= Seq::<(Seq<char>, Seq<char>)>::empty());
        }
        return Some((v, j + 1));
    }
    let mut acc: Vec<(String, String)> = Vec::new();
    let mut pos = body;
    proof {
        if members(s@, body as int) is Some {
            let rm = members(s@, body as int)->Some_0;
            assert(acc.deep_view() + rm.0 =~= rm.0);
        }
    }
    loop
        invariant_except_break
            match members(s@, pos as int) {
                Some(rm) => members(s@, body as int) == Some::<
                    (Seq<(Seq<char>, Seq<char>)>, int),
                >((acc.deep_view() + rm.0, rm.1)),
                None => members(s@, body as int) is None,
            },
        invariant
            body <= pos <= n,
            n == s@.len(),
            i < n && s@[i as int] == '{',
            !(ws_end(s@, body as int) < n && s@[ws_end(s@, body as int)] == '}'),
            body == i + 1,
        ensures
            match members(s@, body as int) {
                Some(rm) => acc.deep_view() == rm.0 && pos == rm.1,
                None => false,
            },
        decreases n - pos,
    {
        match scan_member(s, pos) {
            Some((key, value, j2)) => {
                let c = scan_ws(s, j2);
                let ks = from_chars(key.as_slice());
                let vs = from_chars(value.as_slice());
                let ghost kv = (ks@, vs@);
                let ghost a0 = acc.deep_view();
                let ghost av0 = acc@;
                acc.push((ks, vs));
                proof {
                    assert forall|q: int| 0 <= q < acc@.len() implies acc.deep_view()[q] == a0.push(
                        kv,
                    )[q] by {
                        assert(acc.deep_view()[q] == acc@[q].deep_view());
                        if q < av0.len() {
                            assert(acc@[q] == av0[q]);
                            assert(a0[q] == av0[q].deep_view());
                        }
                    }
                    assert(acc.deep_view() =~= a0.push(kv));
                }
                if c < n && s[c] == ',' {
                    proof {
                        if members(s@, c + 1) is Some {
                            let rm2 = members(s@, c + 1)->Some_0;
                            assert(members(s@, pos as int) == Some::<
                                (Seq<(Seq<char>, Seq<char>)>, int),
                            >((seq![kv] + rm2.0, rm2.1)));
                            assert(a0 + (seq![kv] + rm2.0) =~= a0.push(kv) + rm2.0);
                        } else {
                            assert(members(s@, pos as int) is None);
                        }
                    }
                    pos = c + 1;
                } else if c < n && s[c] == '}' {
                    proof {
                        assert(members(s@, pos as int) == Some::<
                            (Seq<(Seq<char>, Seq<char>)>, int),
                        >((seq![kv], c + 1)));
                        assert(a0 + seq![kv] =~= a0.push(kv));
                    }
                    pos = c + 1;
                    break ;
                } else {
                    proof {
                        assert(members(s@, pos as int) is None);
                    }
                    return None;
                }
            },
            None => {
                return None;
            },
        }
    }
    Some((acc, pos))
}

/// Turns read pairs into a table, refusing a repeated key.
fn table_of_pairs(ps: &Vec<(String, String)>) -> (r: Option<StrTable>)
    ensures
        match r {
            Some(t) => t.wf() && distinct_keys(ps.deep_view()) && t.view_pairs() == ps.deep_view(),
            None => !distinct_keys(ps.deep_view()),
        },
{
    let mut t = StrTable::new();
    let n = ps.len();
    let mut i: usize = 0;
    while i < n
        invariant
            i <= n,
            n == ps@.len(),
            t.wf(),
            t.view_pairs() == ps.deep_view().take(i as int),
        decreases n - i,
    {
        let k = ps[i].0.clone();
        let v = ps[i].1.clone();
        proof {
            assert(ps.deep_view()[i as int] == (ps@[i as int].0@, ps@[i as int].1@));
        }
        if t.contains(&k) {
            proof {
                crate::table::lemma_pairs_map_contains(t.view_pairs(), k@);
                let jx = choose|jx: int|
                    0 <= jx < t.view_pairs().len() && t.view_pairs()[jx].0 == k@;
                assert(ps.deep_view()[jx].0 == k@);
                assert(ps.deep_view()[i as int].0 == k@);
                assert(!distinct_keys(ps.deep_view()));
            }
            return None;
        }
        let ghost t0 = t.view_pairs();
        t.insert(k, v);
        proof {
            assert(t.view_pairs() =~= ps.deep_view().take(i as int + 1));
        }
        i += 1;
    }
    proof {
        assert(ps.deep_view().take(n as int) =~= ps.deep_view());
    }
    Some(t)
}

/// Decodes a complete text as an object of string values with distinct
/// keys.
///
/// This is the decoder for the binary index file; nothing of a different
/// shape is accepted.
pub fn decode_str_object(s: &[char]) -> (r: Option<StrTable>)
    ensures
        match r {
            Some(t) => t.wf() && str_object_text(s@) == Some(t.view_pairs()),
            None => str_object_text(s@) is None,
        },
{
    let n = s.len();
    let start = scan_ws(s, 0);
    match scan_object_token(s, start) {
        Some((ps, j)) => {
            if scan_ws(s, j) != n {
                return None;
            }
            match table_of_pairs(&ps) {
                Some(t) => Some(t),
                None => None,
            }
        },
        None => None,
    }
}

/// A member value as read: a string, or an object of strings.
enum RawValue {
    S(String),
    O(Vec<(String, String)>),
}

spec fn raw_view(v: RawValue) -> Mval {
    match v {
        RawValue::S(st) => Mval::St(st@),
        RawValue::O(ps) => Mval::Ob(ps.deep_view()),
    }
}

spec fn raw_items_view(v: Seq<(String, RawValue)>) -> Seq<(Seq<char>, Mval)> {
    v.map_values(|p: (String, RawValue)| (p.0@, raw_view(p.1)))
}

/// Reads manifest members starting just after `{`, up to the closing `}`.
fn scan_manifest_members(s: &[char], i: usize) -> (r: Option<(Vec<(String, RawValue)>, usize)>)
    requires
        i <= s@.len(),
    ensures
        match r {
            Some(mj) => mmembers(s@, i as int) == Some((raw_items_view(mj.0@), mj.1 as int))
                && mj.1 <= s@.len(),
            None => mmembers(s@, i as int) is None,
        },
{
    let n = s.len();
    let mut acc: Vec<(String, RawValue)> = Vec::new();
    let mut pos = i;
    proof {
        assert(raw_items_view(acc@) =~= Seq::<(Seq<char>, Mval)>::empty());
        if mmembers(s@, i as int) is Some {
            let rm = mmembers(s@, i as int)->Some_0;
            assert(raw_items_view(acc@) + rm.0 =~= rm.0);
        }
    }
    loop
        invariant_except_break
            match mmembers(s@, pos as int) {
                Some(rm) => mmembers(s@, i as int) == Some::<(Seq<(Seq<char>, Mval)>, int)>((
                    raw_items_view(acc@) + rm.0,
                    rm.1,
                )),
                None => mmembers(s@, i as int) is None,
            },
        invariant
            i <= pos <= n,
            n == s@.len(),
        ensures
            match mmembers(s@, i as int) {
                Some(rm) => raw_items_view(acc@) == rm.0 && pos == rm.1,
                None => false,
            },
        decreases n - pos,
    {
        let k0 = scan_ws(s, pos);
        match scan_string(s, k0) {
            None => {
                proof {
                    assert(mmembers(s@, pos as int) is None);
                }
                return None;
            },
            Some((kchars, j1)) => {
                let c = scan_ws(s, j1);
                if !(c < n && s[c] == ':') {
                    proof {
                        assert(mmembers(s@, pos as int) is None);
                    }
                    return None;
                }
                let v0 = scan_ws(s, c + 1);
                let (rv, m): (RawValue, usize) = if v0 < n && s[v0] == '"' {
                    match scan_string(s, v0) {
                        Some((vchars, m2)) => (RawValue::S(from_chars(vchars.as_slice())), m2),
                        None => {
                            proof {
                                assert(mvalue(s@, v0 as int) is None);
                                assert(mmembers(s@, pos as int) is None);
                            }
                            return None;
                        },
                    }
                } else if v0 < n && s[v0] == '{' {
                    match scan_object_token(s, v0) {
                        Some((psv, m2)) => (RawValue::O(psv), m2),
                        None => {
                            proof {
                                assert(mvalue(s@, v0 as int) is None);
                                assert(mmembers(s@, pos as int) is None);
                            }
                            return None;
                        },
                    }
                } else {
                    proof {
                        assert(mvalue(s@, v0 as int) is None);
                        assert(mmembers(s@, pos as int) is None);
                    }
                    return None;
                };
                let ks = from_chars(kchars.as_slice());
                let ghost item = (ks@, raw_view(rv));
                proof {
                    assert(mvalue(s@, v0 as int) == Some::<(Mval, int)>((raw_view(rv), m as int)));
                    assert(mmember(s@, pos as int) == Some::<((Seq<char>, Mval), int)>((
                        item,
                        m as int,
                    )));
                    lemma_string_token_bounds(s@, k0 as int);
                    lemma_mvalue_bounds(s@, v0 as int);
                }
                let c2 = scan_ws(s, m);
                let ghost a0 = raw_items_view(acc@);
                let ghost av0 = acc@;
                acc.push((ks, rv));
                proof {
                    assert forall|q: int| 0 <= q < acc@.len() implies raw_items_view(acc@)[q]
                        == a0.push(item)[q] by {
                        assert(raw_items_view(acc@)[q] == (acc@[q].0@, raw_view(acc@[q].1)));
                        if q < av0.len() {
                            assert(acc@[q] == av0[q]);
                            assert(a0[q] == (av0[q].0@, raw_view(av0[q].1)));
                        }
                    }
                    assert(raw_items_view(acc@) =~= a0.push(item));
                }
                if c2 < n && s[c2] == ',' {
                    proof {
                        if mmembers(s@, c2 + 1) is Some {
                            let rm2 = mmembers(s@, c2 + 1)->Some_0;
                            assert(mmembers(s@, pos as int) == Some::<
                                (Seq<(Seq<char>, Mval)>, int),
                            >((seq![item] + rm2.0, rm2.1)));
                            assert(a0 + (seq![item] + rm2.0) =~= a0.push(item) + rm2.0);
                        } else {
                            assert(mmembers(s@, pos as int) is None);
                        }
                    }
                    pos = c2 + 1;
                } else if c2 < n && s[c2] == '}' {
                    proof {
                        assert(mmembers(s@, pos as int) == Some::<(Seq<(Seq<char>, Mval)>, int)>(
                            (seq![item], c2 + 1),
                        ));
                        assert(a0 + seq![item] =~= a0.push(item));
                    }
                    pos = c2 + 1;
                    break ;
                } else {
                    proof {
                        assert(mmembers(s@, pos as int) is None);
                    }
                    return None;
                }
            },
        }
    }
    Some((acc, pos))
}

/// Picks the three manifest fields out of a member list, refusing a
/// repeated, unknown or wrongly shaped member.
fn extract_fields(ms: &Vec<(String, RawValue)>) -> (r: Option<(String, String, StrTable)>)
    ensures
        match r {
            Some(m) => m.2.wf() && fields_of(raw_items_view(ms@)) == Some((
                m.0@,
                m.1@,
                m.2.view_pairs(),
            )),
            None => fields_of(raw_items_view(ms@)) is None,
        },
{
    proof {
        reveal_strlit("id");
        reveal_strlit("repo");
        reveal_strlit("versions");
    }
    let id_lit: String = String::from_str("id");
    let repo_lit: String = String::from_str("repo");
    let vers_lit: String = String::from_str("versions");
    let ghost msd = raw_items_view(ms@);
    proof {
        assert(msd.len() == ms@.len());
        assert("id"@.len() == 2 && "repo"@.len() == 4 && "versions"@.len() == 8);
        assert("id"@ != "repo"@ && "id"@ != "versions"@ && "repo"@ != "versions"@);
    }
    let n = ms.len();
    let mut id_v: Option<String> = None;
    let mut repo_v: Option<String> = None;
    let mut vers_v: Option<StrTable> = None;
    let mut i: usize = 0;
    while i < n
        invariant
            i <= n,
            n == ms@.len(),
            msd == raw_items_view(ms@),
            msd.len() == n,
            id_lit@ == "id"@ && repo_lit@ == "repo"@ && vers_lit@ == "versions"@,
            "id"@ != "repo"@ && "id"@ != "versions"@ && "repo"@ != "versions"@,
            mkeys_distinct(msd.take(i as int)),
            manifest_keys_known(msd.take(i as int)),
            match id_v {
                Some(v) => mfind(msd.take(i as int), "id"@) == Some(Mval::St(v@)),
                None => mfind(msd.take(i as int), "id"@) is None,
            },
            match repo_v {
                Some(v) => mfind(msd.take(i as int), "repo"@) == Some(Mval::St(v@)),
                None => mfind(msd.take(i as int), "repo"@) is None,
            },
            match vers_v {
                Some(t) => t.wf() && mfind(msd.take(i as int), "versions"@) == Some(
                    Mval::Ob(t.view_pairs()),
                ),
                None => mfind(msd.take(i as int), "versions"@) is None,
            },
        decreases n - i,
    {
        let ghost pre = msd.take(i as int);
        let ghost cur = msd[i as int];
        proof {
            assert(cur == (ms@[i as int].0@, raw_view(ms@[i as int].1)));
            assert(msd.take(i as int + 1) =~= pre.push(cur));
            assert(msd =~= pre + msd.skip(i as int));
            assert(msd.skip(i as int)[0] == cur);
        }
        if ms[i].0 == id_lit {
            if id_v.is_some() {
                proof {
                    lemma_mfind_some_index(pre, "id"@);
                    let jx = choose|jx: int| 0 <= jx < pre.len() && pre[jx].0 == "id"@;
                    assert(msd[jx].0 == "id"@ && msd[i as int].0 == "id"@);
                    assert(!mkeys_distinct(msd));
                }
                return None;
            }
            match &ms[i].1 {
                RawValue::S(v) => {
                    id_v = Some(v.clone());
                    proof {
                        lemma_mfind_snoc(pre, cur, "id"@);
                        lemma_mfind_snoc(pre, cur, "repo"@);
                        lemma_mfind_snoc(pre, cur, "versions"@);
                        lemma_mfind_none(pre, "id"@);
                    }
                },
                RawValue::O(_) => {
                    proof {
                        lemma_mfind_concat(pre, msd.skip(i as int), "id"@);
                        assert(mfind(msd, "id"@) == Some(cur.1));
                        assert(cur.1 is Ob);
                    }
                    return None;
                },
            }
        } else if ms[i].0 == repo_lit {
            if repo_v.is_some() {
                proof {
                    lemma_mfind_some_index(pre, "repo"@);
                    let jx = choose|jx: int| 0 <= jx < pre.len() && pre[jx].0 == "repo"@;
                    assert(msd[jx].0 == "repo"@ && msd[i as int].0 == "repo"@);
                    assert(!mkeys_distinct(msd));
                }
                return None;
            }
            match &ms[i].1 {
                RawValue::S(v) => {
                    repo_v = Some(v.clone());
                    proof {
                        lemma_mfind_snoc(pre, cur, "id"@);
                        lemma_mfind_snoc(pre, cur, "repo"@);
                        lemma_mfind_snoc(pre, cur, "versions"@);
                        lemma_mfind_none(pre, "repo"@);
                    }
                },
                RawValue::O(_) => {
                    proof {
                        lemma_mfind_concat(pre, msd.skip(i as int), "repo"@);
                        assert(cur.1 is Ob);
                    }
                    return None;
                },
            }
        } else if ms[i].0 == vers_lit {
            if vers_v.is_some() {
                proof {
                    lemma_mfind_some_index(pre, "versions"@);
                    let jx = choose|jx: int| 0 <= jx < pre.len() && pre[jx].0 == "versions"@;
                    assert(msd[jx].0 == "versions"@ && msd[i as int].0 == "versions"@);
                    assert(!mkeys_distinct(msd));
                }
                return None;
            }
            match &ms[i].1 {
                RawValue::O(ps) => {
                    match table_of_pairs(ps) {
                        Some(t) => {
                            vers_v = Some(t);
                            proof {
                                lemma_mfind_snoc(pre, cur, "id"@);
                                lemma_mfind_snoc(pre, cur, "repo"@);
                                lemma_mfind_snoc(pre, cur, "versions"@);
                                lemma_mfind_none(pre, "versions"@);
                            }
                        },
                        None => {
                            // The version mapping repeats a label.
                            proof {
                                lemma_mfind_concat(pre, msd.skip(i as int), "versions"@);
                                assert(mfind(msd, "versions"@) == Some(cur.1));
                            }
                            return None;
                        },
                    }
                },
                RawValue::S(_) => {
                    proof {
                        lemma_mfind_concat(pre, msd.skip(i as int), "versions"@);
                        assert(cur.1 is St);
                    }
                    return None;
                },
            }
        } else {
            // A field no manifest holds.
            proof {
                assert(msd[i as int].0 != "id"@ && msd[i as int].0 != "repo"@ && msd[i as int].0
                    != "versions"@);
                assert(!manifest_keys_known(msd));
            }
            return None;
        }
        i += 1;
    }
    proof {
        assert(msd.take(n as int) =~= msd);
    }
    match (id_v, repo_v, vers_v) {
        (Some(a), Some(b), Some(t)) => Some((a, b, t)),
        _ => None,
    }
}

/// Decodes a complete text as a manifest.
///
/// The identifier, the repository URL and the version table, if the text
/// holds exactly those three fields; nothing of a different shape is
/// accepted.
pub fn decode_manifest(s: &[char]) -> (r: Option<(String, String, StrTable)>)
    ensures
        match r {
            Some(m) => m.2.wf() && manifest_fields(s@) == Some((m.0@, m.1@, m.2.view_pairs())),
            None => manifest_fields(s@) is None,
        },
{
    let n = s.len();
    let start = scan_ws(s, 0);
    if !(start < n && s[start] == '{') {
        return None;
    }
    let body = start + 1;
    let j = scan_ws(s, body);
    if j < n && s[j] == '}' {
        // The empty object names no fields.
        proof {
            assert(mfind(Seq::<(Seq<char>, Mval)>::empty(), "id"@) is None);
        }
        return None;
    }
    match scan_manifest_members(s, body) {
        Some((msv, p)) => {
            let e = scan_ws(s, p);
            if e != n {
                return None;
            }
            proof {
                assert(manifest_text(s@) == Some(raw_items_view(msv@)));
            }
            extract_fields(&msv)
        },
        None => None,
    }
}

// ---------------------------------------------------------------------------
// The executable encoder.
// ---------------------------------------------------------------------------
proof fn lemma_escaped_snoc(s: Seq<char>, c: char)
    ensures
        escaped(s.push(c)) == escaped(s) + escaped_char(c),
    decreases s.len(),
{
    if s.len() == 0 {
        assert(s.push(c).drop_first() =~= Seq::<char>::empty());
        assert(s.push(c)[0] == c);
        assert(escaped(Seq::<char>::empty()) =~= Seq::<char>::empty());
        assert(escaped(s.push(c)) == escaped_char(c) + escaped(Seq::<char>::empty()));
        assert(escaped_char(c) + Seq::<char>::empty() =~= escaped_char(c));
        assert(escaped(s) + escaped_char(c) =~= escaped_char(c));
    } else {
        assert(s.push(c).drop_first() =~= s.drop_first().push(c));
        lemma_escaped_snoc(s.drop_first(), c);
        assert(escaped(s.push(c)) == escaped_char(s[0]) + (escaped(s.drop_first())
            + escaped_char(c)));
        assert(escaped_char(s[0]) + (escaped(s.drop_first()) + escaped_char(c)) =~= (escaped_char(
            s[0],
        ) + escaped(s.drop_first())) + escaped_char(c));
    }
}

/// Writes the string token for `v` onto `out`.
fn push_string_text(out: &mut Vec<char>, v: &[char])
    ensures
        final(out)@ == old(out)@ + string_text(v@),
{
    out.push('"');
    let n = v.len();
    let mut i: usize = 0;
    while i < n
        invariant
            i <= n,
            n == v@.len(),
            out@ == old(out)@ + seq!['"'] + escaped(v@.take(i as int)),
        decreases n - i,
    {
        let c = v[i];
        proof {
            assert(v@.take(i as int + 1) =~= v@.take(i as int).push(v@[i as int]));
            lemma_escaped_snoc(v@.take(i as int), v@[i as int]);
        }
        if c == '"' {
            out.push('\\');
            out.push('"');
        } else if c == '\\' {
            out.push('\\');
            out.push('\\');
        } else {
            out.push(c);
        }
        proof {
            assert(out@ =~= old(out)@ + seq!['"'] + escaped(v@.take(i as int + 1)));
        }
        i += 1;
    }
    out.push('"');
    proof {
        assert(v@.take(n as int) =~= v@);
        assert(out@ =~= old(out)@ + string_text(v@));
    }
}

// ---------------------------------------------------------------------------
// The round trip: what the encoder writes, the parser reads back
// unchanged.
// ---------------------------------------------------------------------------
proof fn lemma_ws_end_at_nonws(s: Seq<char>, i: int)
    requires
        0 <= i <= s.len(),
        i < s.len() ==> !is_ws(s[i]),
    ensures
        ws_end(s, i) == i,
{
}

/// A stretch of `s` known to read `a + b` splits into its two halves.
proof fn lemma_block_split(s: Seq<char>, i: int, a: Seq<char>, b: Seq<char>)
    requires
        0 <= i,
        i + a.len() + b.len() <= s.len(),
        s.subrange(i, i + a.len() + b.len()) == a + b,
    ensures
        s.subrange(i, i + a.len()) == a,
        s.subrange(i + a.len(), i + a.len() + b.len()) == b,
{
    let al = a.len() as int;
    let bl = b.len() as int;
    assert forall|q: int| 0 <= q < al implies s.subrange(i, i + al)[q] == a[q] by {
        assert(s.subrange(i, i + al)[q] == s[i + q]);
        assert(s.subrange(i, i + al + bl)[q] == s[i + q]);
        assert((a + b)[q] == a[q]);
    }
    assert(s.subrange(i, i + al) =~= a);
    assert forall|q: int| 0 <= q < bl implies s.subrange(i + al, i + al + bl)[q] == b[q] by {
        assert(s.subrange(i + al, i + al + bl)[q] == s[i + al + q]);
        assert(s.subrange(i, i + al + bl)[al + q] == s[i + (al + q)]);
        assert((a + b)[al + q] == b[q]);
    }
    assert(s.subrange(i + al, i + al + bl) =~= b);
}

/// One character of a stretch of `s` known to read `a`.
proof fn lemma_block_char(s: Seq<char>, i: int, a: Seq<char>, q: int)
    requires
        0 <= i,
        i + a.len() <= s.len(),
        s.subrange(i, i + a.len()) == a,
        0 <= q < a.len(),
    ensures
        s[i + q] == a[q],
{
    assert(s.subrange(i, i + a.len() as int)[q] == s[i + q]);
}

proof fn lemma_string_body_at(s: Seq<char>, i: int, v: Seq<char>)
    requires
        0 <= i,
        i + escaped(v).len() + 1 <= s.len(),
        s.subrange(i, i + escaped(v).len()) == escaped(v),
        s[i + escaped(v).len()] == '"',
    ensures
        string_body(s, i) == Some((v, i + escaped(v).len() + 1)),
    decreases v.len(),
{
    let ll = escaped(v).len() as int;
    if v.len() == 0 {
        assert(escaped(v) =~= Seq::<char>::empty());
        assert(s[i] == '"');
        assert(v =~= Seq::<char>::empty());
    } else {
        let e0 = escaped_char(v[0]);
        let rest = escaped(v.drop_first());
        let el = e0.len() as int;
        assert(escaped(v) == e0 + rest);
        lemma_block_split(s, i, e0, rest);
        lemma_block_char(s, i, e0, 0);
        assert(s[i] == e0[0]);
        assert((i + el) + rest.len() == i + ll);
        assert(s[(i + el) + rest.len()] == '"');
        lemma_string_body_at(s, i + el, v.drop_first());
        if v[0] == '"' {
            assert(e0 == seq!['\\', '"']);
            lemma_block_char(s, i, e0, 1);
            assert(s[i] == '\\' && s[i + 1] == '"');
            assert(unescaped(s[i + 1]) == Some('"'));
            assert(string_body(s, i) == Some((seq!['"'] + v.drop_first(), i + ll + 1)));
            assert(seq![v[0]] + v.drop_first() =~= v);
        } else if v[0] == '\\' {
            assert(e0 == seq!['\\', '\\']);
            lemma_block_char(s, i, e0, 1);
            assert(s[i] == '\\' && s[i + 1] == '\\');
            assert(unescaped(s[i + 1]) == Some('\\'));
            assert(string_body(s, i) == Some((seq!['\\'] + v.drop_first(), i + ll + 1)));
            assert(seq![v[0]] + v.drop_first() =~= v);
        } else {
            assert(e0 == seq![v[0]]);
            assert(s[i] == v[0]);
            assert(s[i] != '"' && s[i] != '\\');
            assert(string_body(s, i) == Some((seq![s[i]] + v.drop_first(), i + ll + 1)));
            assert(seq![v[0]] + v.drop_first() =~= v);
        }
    }
}

/// The length of a string token.
spec fn stlen(v: Seq<char>) -> int {
    escaped(v).len() + 2int
}

proof fn lemma_string_token_at(s: Seq<char>, i: int, v: Seq<char>)
    requires
        0 <= i,
        i + stlen(v) <= s.len(),
        s.subrange(i, i + stlen(v)) == string_text(v),
    ensures
        string_token(s, i) == Some((v, i + stlen(v))),
{
    let ll = escaped(v).len() as int;
    assert(string_text(v) == (seq!['"'] + escaped(v)) + seq!['"']);
    lemma_block_split(s, i, seq!['"'] + escaped(v), seq!['"']);
    lemma_block_split(s, i, seq!['"'], escaped(v));
    lemma_block_char(s, i, seq!['"'], 0);
    assert(s[i] == '"');
    lemma_block_char(s, i + 1 + ll, seq!['"'], 0);
    assert(s[(i + 1) + ll] == '"');
    lemma_string_body_at(s, i + 1, v);
}

/// The length of one encoded member.
spec fn mtlen(kv: (Seq<char>, Seq<char>)) -> int {
    stlen(kv.0) + 1 + stlen(kv.1)
}

/// One encoded member.
spec fn member_text(kv: (Seq<char>, Seq<char>)) -> Seq<char> {
    string_text(kv.0) + seq![':'] + string_text(kv.1)
}

proof fn lemma_string_text_opens(v: Seq<char>)
    ensures
        string_text(v).len() == stlen(v),
        string_text(v)[0] == '"',
{
    assert((seq!['"'] + escaped(v))[0] == '"');
    assert(string_text(v)[0] == '"');
}

proof fn lemma_member_at(s: Seq<char>, i: int, kv: (Seq<char>, Seq<char>))
    requires
        0 <= i,
        i + mtlen(kv) <= s.len(),
        s.subrange(i, i + mtlen(kv)) == member_text(kv),
    ensures
        member(s, i) == Some((kv, i + mtlen(kv))),
{
    lemma_string_text_opens(kv.0);
    lemma_string_text_opens(kv.1);
    assert(member_text(kv) == (string_text(kv.0) + seq![':']) + string_text(kv.1));
    lemma_block_split(s, i, string_text(kv.0) + seq![':'], string_text(kv.1));
    lemma_block_split(s, i, string_text(kv.0), seq![':']);
    let j = i + stlen(kv.0);
    lemma_block_char(s, i, string_text(kv.0), 0);
    assert(s[i] == '"');
    assert(!is_ws('"'));
    lemma_ws_end_at_nonws(s, i);
    lemma_string_token_at(s, i, kv.0);
    lemma_block_char(s, j, seq![':'], 0);
    assert(s[j] == ':');
    assert(!is_ws(':'));
    lemma_ws_end_at_nonws(s, j);
    lemma_block_char(s, j + 1, string_text(kv.1), 0);
    assert(s[j + 1] == '"');
    lemma_ws_end_at_nonws(s, j + 1);
    lemma_string_token_at(s, j + 1, kv.1);
}

proof fn lemma_members_at(s: Seq<char>, i: int, ps: Seq<(Seq<char>, Seq<char>)>)
    requires
        0 <= i,
        ps.len() > 0,
        i + pairs_text(ps).len() + 1 <= s.len(),
        s.subrange(i, i + pairs_text(ps).len()) == pairs_text(ps),
        s[i + pairs_text(ps).len()] == '}',
    ensures
        members(s, i) == Some((ps, i + pairs_text(ps).len() + 1)),
    decreases ps.len(),
{
    let pl = pairs_text(ps).len() as int;
    lemma_string_text_opens(ps[0].0);
    lemma_string_text_opens(ps[0].1);
    if ps.len() == 1 {
        assert(pairs_text(ps) == member_text(ps[0]));
        lemma_member_at(s, i, ps[0]);
        let j = i + mtlen(ps[0]);
        assert(j == i + pl);
        assert(s[j] == '}');
        assert(!is_ws('}'));
        lemma_ws_end_at_nonws(s, j);
        assert(members(s, i) == Some((seq![ps[0]], j + 1)));
        assert(seq![ps[0]] =~= ps);
    } else {
        let rest = pairs_text(ps.drop_first());
        assert(pairs_text(ps) == (member_text(ps[0]) + seq![',']) + rest);
        lemma_block_split(s, i, member_text(ps[0]) + seq![','], rest);
        lemma_block_split(s, i, member_text(ps[0]), seq![',']);
        lemma_member_at(s, i, ps[0]);
        let j = i + mtlen(ps[0]);
        lemma_block_char(s, j, seq![','], 0);
        assert(s[j] == ',');
        assert(!is_ws(','));
        lemma_ws_end_at_nonws(s, j);
        assert((j + 1) + rest.len() == i + pl);
        assert(s[(j + 1) + rest.len()] == '}');
        lemma_members_at(s, j + 1, ps.drop_first());
        assert(members(s, i) == Some((seq![ps[0]] + ps.drop_first(), i + pl + 1)));
        assert(seq![ps[0]] + ps.drop_first() =~= ps);
    }
}

/// The round trip: a mapping written by the encoder is read back exactly,
/// whatever its keys and values hold.
pub proof fn lemma_encoded_object_decodes(ps: Seq<(Seq<char>, Seq<char>)>)
    requires
        distinct_keys(ps),
    ensures
        str_object_text(object_text(ps)) == Some(ps),
{
    let s = object_text(ps);
    let pl = pairs_text(ps).len() as int;
    assert(s == (seq!['{'] + pairs_text(ps)) + seq!['}']);
    assert(s.len() == pl + 2);
    assert(s.subrange(0, pl + 2) =~= s);
    lemma_block_split(s, 0, seq!['{'] + pairs_text(ps), seq!['}']);
    lemma_block_split(s, 0, seq!['{'], pairs_text(ps));
    lemma_block_char(s, 0, seq!['{'], 0);
    assert(s[0] == '{');
    assert(!is_ws('{'));
    lemma_ws_end_at_nonws(s, 0);
    lemma_block_char(s, 1 + pl, seq!['}'], 0);
    assert(s[1 + pl] == '}');
    if ps.len() == 0 {
        assert(pairs_text(ps) =~= Seq::<char>::empty());
        assert(s[1] == '}');
        assert(!is_ws('}'));
        lemma_ws_end_at_nonws(s, 1);
        lemma_ws_end_at_nonws(s, 2);
        assert(object_token(s, 0) == Some((Seq::<(Seq<char>, Seq<char>)>::empty(), 2int)));
        assert(Seq::<(Seq<char>, Seq<char>)>::empty() =~= ps);
    } else {
        lemma_string_text_opens(ps[0].0);
        if ps.len() == 1 {
            assert(pairs_text(ps) == member_text(ps[0]));
            assert(member_text(ps[0]) == (string_text(ps[0].0) + seq![':']) + string_text(
                ps[0].1,
            ));
            assert(((string_text(ps[0].0) + seq![':']) + string_text(ps[0].1))[0] == (
            string_text(ps[0].0) + seq![':'])[0]);
            assert((string_text(ps[0].0) + seq![':'])[0] == string_text(ps[0].0)[0]);
        } else {
            assert(pairs_text(ps) == (member_text(ps[0]) + seq![',']) + pairs_text(
                ps.drop_first(),
            ));
            assert(((member_text(ps[0]) + seq![',']) + pairs_text(ps.drop_first()))[0] == (
            member_text(ps[0]) + seq![','])[0]);
            assert((member_text(ps[0]) + seq![','])[0] == member_text(ps[0])[0]);
            assert(member_text(ps[0]) == (string_text(ps[0].0) + seq![':']) + string_text(
                ps[0].1,
            ));
            assert(((string_text(ps[0].0) + seq![':']) + string_text(ps[0].1))[0] == (
            string_text(ps[0].0) + seq![':'])[0]);
            assert((string_text(ps[0].0) + seq![':'])[0] == string_text(ps[0].0)[0]);
        }
        assert(pairs_text(ps)[0] == '"');
        lemma_block_char(s, 1, pairs_text(ps), 0);
        assert(s[1] == '"');
        assert(!is_ws('"'));
        lemma_ws_end_at_nonws(s, 1);
        lemma_members_at(s, 1, ps);
        assert(members(s, 1) == Some((ps, pl + 2)));
        assert(object_token(s, 0) == Some((ps, pl + 2)));
        lemma_ws_end_at_nonws(s, pl + 2);
    }
}

/// The canonical text of the mapping `t` holds: its pairs in order, as one
/// JSON object of string values.
pub fn encode_str_object(t: &StrTable) -> (r: Vec<char>)
    ensures
        r@ == object_text(t.view_pairs()),
{
    let mut out: Vec<char> = Vec::new();
    out.push('{');
    proof {
        assert(out@ =~= seq!['{']);
        assert(t.view_pairs().skip(0) =~= t.view_pairs());
        assert(out@ + pairs_text(t.view_pairs()) + seq!['}'] =~= object_text(t.view_pairs()));
    }
    let n = t.pairs.len();
    let mut i: usize = 0;
    while i < n
        invariant
            i <= n,
            n == t.view_pairs().len(),
            out@ + pairs_text(t.view_pairs().skip(i as int)) + seq!['}'] == object_text(
                t.view_pairs(),
            ),
        decreases n - i,
    {
        let ghost ps = t.view_pairs();
        let ghost rest = ps.skip(i as int);
        proof {
            assert(rest.len() == n - i);
            assert(rest[0] == ps[i as int]);
            assert(rest.drop_first() =~= ps.skip(i as int + 1));
        }
        let kc = crate::text::to_chars(t.pairs[i].0.as_str());
        push_string_text(&mut out, kc.as_slice());
        out.push(':');
        let vc = crate::text::to_chars(t.pairs[i].1.as_str());
        push_string_text(&mut out, vc.as_slice());
        if i + 1 < n {
            out.push(',');
        }
        proof {
            assert(out@ + pairs_text(ps.skip(i as int + 1)) + seq!['}'] =~= object_text(ps));
        }
        i += 1;
    }
    out.push('}');
    proof {
        assert(pairs_text(t.view_pairs().skip(n as int)) =~= Seq::<char>::empty());
        assert(out@ =~= object_text(t.view_pairs()));
    }
    out
}

} // verus!
