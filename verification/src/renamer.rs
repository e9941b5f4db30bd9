use vstd::prelude::*;
use vstd::string::StringExecFns;

use crate::clock::Timestamp;
use crate::parser::compile_from;
use crate::parser::compile_spec;
use crate::parser::error_message;
use crate::parser::Error;
use crate::parser::ErrorCode;
use crate::parser::OptionalData;
use crate::parser::Parser;

verus! {

/// Drives the pattern compiler for one renaming session: each call computes
/// the next name for one file from the naming pattern, the session counter
/// and the clock. Applying the computed name to the filesystem (or skipping
/// that for a preview) is the caller's step, so a preview and a real run
/// compute the same name.
pub struct Renamer {
    pub parser: Parser,
}

/// Whether a compile failed, and with which error, depends on the pattern
/// and the presence of the per-file data alone: the counter value and the
/// timestamp never decide between success and failure.
proof fn lemma_compile_from_failure_independent(
    p: Seq<char>,
    i: int,
    esc: bool,
    run: nat,
    c1: nat,
    c2: nat,
    ts1: Timestamp,
    ts2: Timestamp,
    x1: Option<Seq<char>>,
    x2: Option<Seq<char>>,
)
    requires
        x1 is Some <==> x2 is Some,
    ensures
        compile_from(p, i, esc, run, c1, ts1, x1) is Err <==> compile_from(
            p,
            i,
            esc,
            run,
            c2,
            ts2,
            x2,
        ) is Err,
        compile_from(p, i, esc, run, c1, ts1, x1) is Err ==> compile_from(
            p,
            i,
            esc,
            run,
            c1,
            ts1,
            x1,
        )->Err_0 == compile_from(p, i, esc, run, c2, ts2, x2)->Err_0,
    decreases p.len() - i,
{
    if 0 <= i < p.len() {
        let c = p[i];
        if c == '\\' && !esc {
            lemma_compile_from_failure_independent(p, i + 1, true, run, c1, c2, ts1, ts2, x1, x2);
        } else if c == '?' {
            lemma_compile_from_failure_independent(
                p,
                i + 1,
                esc,
                (run + 1) as nat,
                c1,
                c2,
                ts1,
                ts2,
                x1,
                x2,
            );
        } else {
            lemma_compile_from_failure_independent(p, i + 1, false, 0, c1, c2, ts1, ts2, x1, x2);
        }
    }
}

/// Success or failure of a whole compile, and the error it fails with, are
/// decided by the pattern and the presence of per-file data alone; the
/// session counter and the clock only shape the output of a success. This
/// is why a preview and a real run cannot disagree on whether a pattern is
/// acceptable.
pub proof fn lemma_compile_failure_independent(
    p: Seq<char>,
    c1: nat,
    c2: nat,
    ts1: Timestamp,
    ts2: Timestamp,
    x1: Option<Seq<char>>,
    x2: Option<Seq<char>>,
)
    requires
        x1 is Some <==> x2 is Some,
    ensures
        compile_spec(p, c1, ts1, x1) is Err <==> compile_spec(p, c2, ts2, x2) is Err,
        compile_spec(p, c1, ts1, x1) is Err ==> compile_spec(p, c1, ts1, x1)->Err_0 == compile_spec(
            p,
            c2,
            ts2,
            x2,
        )->Err_0,
{
    lemma_compile_from_failure_independent(p, 0, false, 0, c1, c2, ts1, ts2, x1, x2);
}

/// Pattern compilation is deterministic: one pattern, one counter value,
/// one timestamp and one optional file name admit exactly one outcome, so
/// compiling twice under the same state yields the same output.
pub proof fn lemma_compile_deterministic(
    p1: Seq<char>,
    p2: Seq<char>,
    c1: nat,
    c2: nat,
    ts1: Timestamp,
    ts2: Timestamp,
    x1: Option<Seq<char>>,
    x2: Option<Seq<char>>,
)
    requires
        p1 == p2,
        c1 == c2,
        ts1 == ts2,
        x1 == x2,
    ensures
        compile_spec(p1, c1, ts1, x1) == compile_spec(p2, c2, ts2, x2),
{
}

impl Renamer {
    /// A fresh session: the counter starts at zero.
    pub fn new() -> (r: Self)
        ensures
            r.parser.counter == 0,
    {
        Renamer { parser: Parser::new() }
    }

    /// Computes the new name for the file currently named `target_name`
    /// from the naming pattern, advancing the session counter by one and
    /// reading the clock for the date and time directives. The result is
    /// exactly what the pattern compiles to for the advanced counter, the
    /// file's name and some well-formed clock reading; whether it fails,
    /// and with which error, does not depend on that reading.
    pub fn rename(&mut self, target_name: &str, name_pattern: &str) -> (r: Result<String, Error>)
        requires
            old(self).parser.counter < u32::MAX,
        ensures
            final(self).parser.counter == old(self).parser.counter + 1,
            exists|ts: Timestamp|
                #[trigger] ts.wf() && ({
                    let spec_r = compile_spec(
                        name_pattern@,
                        (old(self).parser.counter + 1) as nat,
                        ts,
                        Some(target_name@),
                    );
                    match r {
                        Ok(s) => spec_r == Ok::<Seq<char>, (int, ErrorCode)>(s@),
                        Err(e) => spec_r == Err::<Seq<char>, (int, ErrorCode)>(
                            (e.column as int, e.code),
                        ) && e.message@ == error_message(name_pattern@, e.column as int, e.code),
                    }
                }),
    {
        let ts = Timestamp::now();
        let optional_data = OptionalData { file_name: String::from_str(target_name) };
        let r = self.parser.parse(name_pattern, &ts, Some(&optional_data));
        proof {
            assert(ts.wf() && ({
                let spec_r = compile_spec(
                    name_pattern@,
                    (old(self).parser.counter + 1) as nat,
                    ts,
                    Some(target_name@),
                );
                match r {
                    Ok(s) => spec_r == Ok::<Seq<char>, (int, ErrorCode)>(s@),
                    Err(e) => spec_r == Err::<Seq<char>, (int, ErrorCode)>(
                        (e.column as int, e.code),
                    ) && e.message@ == error_message(name_pattern@, e.column as int, e.code),
                }
            }));
        }
        r
    }
}

} // verus!
