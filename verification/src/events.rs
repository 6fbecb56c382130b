//! Build events and the artifact locator.
//!
//! The build toolchain reports line-delimited structured events on its
//! primary output stream. Each line is decoded on its own; a line that
//! fails to decode carries nothing and is passed over rather than aborting
//! the scan. The locator returns the path carried by the first event that
//! reports a produced executable.

use vstd::prelude::*;

verus! {

use crate::text::to_chars;

/// The path named by the `executable` field of one build-event line, if
/// the line decodes to an event carrying one.
pub uninterp spec fn executable_field(line: Seq<char>) -> Option<Seq<char>>;

/// Relies on `serde_json::from_str::<Value>`, `Value::get` and
/// `Value::as_str`: the decoded `executable` field of one event line. All
/// three are functions of the line's characters alone. A line that does
/// not decode, or whose `executable` field is absent, null or no string,
/// carries no path.
#[verifier::external_body]
fn event_executable(line: &[char]) -> (r: Option<String>)
    ensures
        match r {
            Some(p) => executable_field(line@) == Some(p@),
            None => executable_field(line@) is None,
        },
{
    let text: String = line.iter().collect();
    match serde_json::from_str::<serde_json::Value>(&text) {
        Ok(v) => v.get("executable").and_then(|e| e.as_str()).map(|p| p.to_string()),
        Err(_) => None,
    }
}

/// The first position at or after `i` holding a line break, or the end.
pub open spec fn line_end(s: Seq<char>, i: int) -> int
    decreases s.len() - i,
{
    if 0 <= i < s.len() && s[i] != '\n' {
        line_end(s, i + 1)
    } else {
        i
    }
}

pub proof fn lemma_line_end_bounds(s: Seq<char>, i: int)
    requires
        0 <= i <= s.len(),
    ensures
        i <= line_end(s, i) <= s.len(),
    decreases s.len() - i,
{
    if 0 <= i < s.len() && s[i] != '\n' {
        lemma_line_end_bounds(s, i + 1);
    }
}

/// The lines of `s` from position `i` on, split at line breaks.
pub open spec fn lines_from(s: Seq<char>, i: int) -> Seq<Seq<char>>
    decreases s.len() - i,
    when 0 <= i <= s.len()
    via lines_from_decreases
{
    let e = line_end(s, i);
    if e < s.len() {
        seq![s.subrange(i, e)] + lines_from(s, e + 1)
    } else {
        seq![s.subrange(i, e)]
    }
}

#[via_fn]
proof fn lines_from_decreases(s: Seq<char>, i: int) {
    lemma_line_end_bounds(s, i);
}

/// What the locator yields on a sequence of lines: the `executable` field
/// of the first line carrying one.
pub open spec fn located(lines: Seq<Seq<char>>) -> Option<Seq<char>>
    decreases lines.len(),
{
    if lines.len() == 0 {
        None
    } else if executable_field(lines[0]) is Some {
        executable_field(lines[0])
    } else {
        located(lines.drop_first())
    }
}

/// The path of the produced executable, as the build output reports it:
/// the first event line whose `executable` field names one. Emission
/// order decides when a build produces several binaries.
pub fn locate_artifact(output: &str) -> (r: Option<String>)
    ensures
        match r {
            Some(p) => located(lines_from(output@, 0)) == Some(p@),
            None => located(lines_from(output@, 0)) is None,
        },
{
    let s = to_chars(output);
    let n = s.len();
    let mut pos: usize = 0;
    loop
        invariant_except_break
            located(lines_from(s@, 0)) == located(lines_from(s@, pos as int)),
        invariant
            pos <= n,
            n == s@.len(),
            s@ == output@,
        ensures
            match located(lines_from(output@, 0)) {
                Some(p) => false,
                None => true,
            },
        decreases n - pos + 1,
    {
        // The current line runs to the next break or the end.
        let mut e = pos;
        while e < n && s[e] != '\n'
            invariant
                pos <= e <= n,
                n == s@.len(),
                line_end(s@, pos as int) == line_end(s@, e as int),
            decreases n - e,
        {
            e += 1;
        }
        proof {
            assert(line_end(s@, e as int) == e);
        }
        let mut line: Vec<char> = Vec::new();
        let mut q = pos;
        while q < e
            invariant
                pos <= q <= e <= n,
                n == s@.len(),
                line@ =~= s@.subrange(pos as int, q as int),
            decreases e - q,
        {
            line.push(s[q]);
            proof {
                assert(line@ =~= s@.subrange(pos as int, q as int + 1));
            }
            q += 1;
        }
        proof {
            assert(line@ =~= lines_from(s@, pos as int)[0]);
        }
        match event_executable(line.as_slice()) {
            Some(p) => {
                return Some(p);
            },
            None => {
                if e < n {
                    proof {
                        assert(lines_from(s@, pos as int).drop_first() =~= lines_from(
                            s@,
                            e + 1,
                        ));
                    }
                    pos = e + 1;
                } else {
                    proof {
                        assert(lines_from(s@, pos as int) =~= seq![
                            s@.subrange(pos as int, e as int),
                        ]);
                        assert(lines_from(s@, pos as int).drop_first() =~= Seq::<
                            Seq<char>,
                        >::empty());
                        assert(located(Seq::<Seq<char>>::empty()) is None);
                        assert(located(lines_from(s@, pos as int)) is None);
                        assert(located(lines_from(s@, 0)) is None);
                    }
                    break ;
                }
            },
        }
    }
    None
}

} // verus!
