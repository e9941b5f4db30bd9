use vstd::prelude::*;
use vstd::string::StrSliceExecFns;
use vstd::string::StringExecFns;

use crate::clock::Timestamp;
use crate::strutil::pad_decimal;
use crate::strutil::push_char;
use crate::strutil::render_padded;

verus! {

/// The naming-pattern compiler. One instance lives for a whole renaming
/// session; its counter advances by one on every `parse` call, so `?`
/// placeholders number the session's files consecutively.
pub struct Parser {
    /// The session counter. It starts at 0 and is incremented once at the
    /// start of every `parse` call.
    pub counter: u32,
}

/// The kind of a pattern error.
#[derive(Debug, Clone, Copy, PartialEq, Eq, Structural)]
pub enum ErrorCode {
    /// The pattern asked for the original file name, but no optional data
    /// was supplied.
    NoOptionalData,
    /// An escape introduced a character that is not a directive.
    InvalidCharacter,
}

/// A pattern error: its kind, the 0-based column of the offending character
/// in the pattern, and a human-readable message.
#[derive(Debug)]
pub struct Error {
    pub code: ErrorCode,
    pub column: usize,
    pub message: String,
}

impl PartialEq for Error {
    fn eq(&self, other: &Error) -> bool {
        self.code == other.code && self.column == other.column && self.message == other.message
    }
}

impl vstd::std_specs::cmp::PartialEqSpecImpl for Error {
    open spec fn obeys_eq_spec() -> bool {
        true
    }

    open spec fn eq_spec(&self, other: &Error) -> bool {
        self.code == other.code && self.column == other.column && self.message@ == other.message@
    }
}

impl Eq for Error {}

/// Per-file data that the pattern may substitute: the original file name.
pub struct OptionalData {
    pub file_name: String,
}

/// Whether `c` may follow the escape character.
pub open spec fn is_directive_char(c: char) -> bool {
    ||| c == '\\'
    ||| c == '0'
    ||| c == 'Y'
    ||| c == 'y'
    ||| c == 'm'
    ||| c == 'b'
    ||| c == 'B'
    ||| c == 'd'
    ||| c == 'a'
    ||| c == 'A'
    ||| c == 'p'
    ||| c == 'P'
    ||| c == 'H'
    ||| c == 'I'
    ||| c == 'M'
    ||| c == 'S'
}

/// The year written with at least four digits, sign first when negative.
pub open spec fn year4(y: int) -> Seq<char> {
    if y >= 0 {
        pad_decimal(y as nat, 4)
    } else {
        seq!['-'] + pad_decimal((-y) as nat, 4)
    }
}

/// The last two decimal digits of the year (for a negative year, the two
/// digits that complete its century).
pub open spec fn year2_val(y: int) -> nat {
    if y >= 0 {
        (y % 100) as nat
    } else if (-y) % 100 == 0 {
        0
    } else {
        (100 - (-y) % 100) as nat
    }
}

/// The year written with exactly its last two digits.
pub open spec fn year2(y: int) -> Seq<char> {
    pad_decimal(year2_val(y), 2)
}

/// The hour on the 12-hour clock: 12 for 0 and 12, otherwise the hour
/// modulo 12.
pub open spec fn hour12_val(h: int) -> nat {
    if h % 12 == 0 {
        12
    } else {
        (h % 12) as nat
    }
}

/// The upper-case am/pm marker for an hour of the 24-hour clock.
pub open spec fn ampm_upper(h: int) -> Seq<char> {
    if h < 12 {
        "AM"@
    } else {
        "PM"@
    }
}

/// The lower-case am/pm marker for an hour of the 24-hour clock.
pub open spec fn ampm_lower(h: int) -> Seq<char> {
    if h < 12 {
        "am"@
    } else {
        "pm"@
    }
}

/// The abbreviated name of month `m` (1 through 12).
pub open spec fn month_abbrev(m: int) -> Seq<char> {
    if m == 1 {
        "Jan"@
    } else if m == 2 {
        "Feb"@
    } else if m == 3 {
        "Mar"@
    } else if m == 4 {
        "Apr"@
    } else if m == 5 {
        "May"@
    } else if m == 6 {
        "Jun"@
    } else if m == 7 {
        "Jul"@
    } else if m == 8 {
        "Aug"@
    } else if m == 9 {
        "Sep"@
    } else if m == 10 {
        "Oct"@
    } else if m == 11 {
        "Nov"@
    } else if m == 12 {
        "Dec"@
    } else {
        Seq::empty()
    }
}

/// The full name of month `m` (1 through 12).
pub open spec fn month_full(m: int) -> Seq<char> {
    if m == 1 {
        "January"@
    } else if m == 2 {
        "February"@
    } else if m == 3 {
        "March"@
    } else if m == 4 {
        "April"@
    } else if m == 5 {
        "May"@
    } else if m == 6 {
        "June"@
    } else if m == 7 {
        "July"@
    } else if m == 8 {
        "August"@
    } else if m == 9 {
        "September"@
    } else if m == 10 {
        "October"@
    } else if m == 11 {
        "November"@
    } else if m == 12 {
        "December"@
    } else {
        Seq::empty()
    }
}

/// The abbreviated name of weekday `d` (Monday is 0, Sunday is 6).
pub open spec fn weekday_abbrev(d: int) -> Seq<char> {
    if d == 0 {
        "Mon"@
    } else if d == 1 {
        "Tue"@
    } else if d == 2 {
        "Wed"@
    } else if d == 3 {
        "Thu"@
    } else if d == 4 {
        "Fri"@
    } else if d == 5 {
        "Sat"@
    } else if d == 6 {
        "Sun"@
    } else {
        Seq::empty()
    }
}

/// The full name of weekday `d` (Monday is 0, Sunday is 6).
pub open spec fn weekday_full(d: int) -> Seq<char> {
    if d == 0 {
        "Monday"@
    } else if d == 1 {
        "Tuesday"@
    } else if d == 2 {
        "Wednesday"@
    } else if d == 3 {
        "Thursday"@
    } else if d == 4 {
        "Friday"@
    } else if d == 5 {
        "Saturday"@
    } else if d == 6 {
        "Sunday"@
    } else {
        Seq::empty()
    }
}

/// The text a valid directive emits: the escape character itself, the
/// original file name, or a field of the timestamp.
pub open spec fn directive_text(c: char, ts: Timestamp, name: Seq<char>) -> Seq<char> {
    if c == '\\' {
        seq!['\\']
    } else if c == '0' {
        name
    } else if c == 'Y' {
        year4(ts.year as int)
    } else if c == 'y' {
        year2(ts.year as int)
    } else if c == 'm' {
        pad_decimal(ts.month as nat, 2)
    } else if c == 'b' {
        month_abbrev(ts.month as int)
    } else if c == 'B' {
        month_full(ts.month as int)
    } else if c == 'd' {
        pad_decimal(ts.day as nat, 2)
    } else if c == 'a' {
        weekday_abbrev(ts.weekday as int)
    } else if c == 'A' {
        weekday_full(ts.weekday as int)
    } else if c == 'p' {
        ampm_upper(ts.hour as int)
    } else if c == 'P' {
        ampm_lower(ts.hour as int)
    } else if c == 'H' {
        pad_decimal(ts.hour as nat, 2)
    } else if c == 'I' {
        pad_decimal(hour12_val(ts.hour as int), 2)
    } else if c == 'M' {
        pad_decimal(ts.minute as nat, 2)
    } else if c == 'S' {
        pad_decimal(ts.second as nat, 2)
    } else {
        Seq::empty()
    }
}

/// The pattern automaton, from position `i` onward. `esc` says whether an
/// escape is pending and `run` is the length of the pending placeholder run.
/// On success the result is the text the rest of the pattern compiles to; on
/// failure it is the column and kind of the first error.
pub open spec fn compile_from(
    p: Seq<char>,
    i: int,
    esc: bool,
    run: nat,
    counter: nat,
    ts: Timestamp,
    ctx: Option<Seq<char>>,
) -> Result<Seq<char>, (int, ErrorCode)>
    decreases p.len() - i,
{
    if i < 0 || i >= p.len() {
        if run > 0 {
            Ok(pad_decimal(counter, run))
        } else {
            Ok(Seq::empty())
        }
    } else {
        let c = p[i];
        if c == '\\' && !esc {
            compile_from(p, i + 1, true, run, counter, ts, ctx)
        } else if c == '?' {
            compile_from(p, i + 1, esc, (run + 1) as nat, counter, ts, ctx)
        } else {
            let flushed: Seq<char> = if run > 0 {
                pad_decimal(counter, run)
            } else {
                Seq::empty()
            };
            if esc {
                if !is_directive_char(c) {
                    Err((i, ErrorCode::InvalidCharacter))
                } else if c == '0' && ctx is None {
                    Err((i, ErrorCode::NoOptionalData))
                } else {
                    let emitted = directive_text(
                        c,
                        ts,
                        if ctx is Some {
                            ctx.unwrap()
                        } else {
                            Seq::empty()
                        },
                    );
                    match compile_from(p, i + 1, false, 0, counter, ts, ctx) {
                        Ok(tail) => Ok(flushed + emitted + tail),
                        Err(e) => Err(e),
                    }
                }
            } else {
                match compile_from(p, i + 1, false, 0, counter, ts, ctx) {
                    Ok(tail) => Ok(flushed + seq![c] + tail),
                    Err(e) => Err(e),
                }
            }
        }
    }
}

/// What a whole pattern compiles to, for a given session-counter value,
/// timestamp, and optional original file name. The output is a pure function
/// of these arguments, so previewing a rename and performing it agree.
pub open spec fn compile_spec(
    p: Seq<char>,
    counter: nat,
    ts: Timestamp,
    ctx: Option<Seq<char>>,
) -> Result<Seq<char>, (int, ErrorCode)> {
    compile_from(p, 0, false, 0, counter, ts, ctx)
}

/// The message text that accompanies a pattern error at column `col`.
pub open spec fn error_message(p: Seq<char>, col: int, code: ErrorCode) -> Seq<char> {
    if code is InvalidCharacter {
        "Invalid character: "@ + seq![p[col]]
    } else {
        "OptionalData not specified"@
    }
}

/// Writes the year with at least four digits, sign first when negative.
fn render_year4(y: i32) -> (s: String)
    ensures
        s@ == year4(y as int),
{
    if y >= 0 {
        render_padded(y as u32, 4)
    } else {
        let mag: i64 = -(y as i64);
        let mut s = String::from_str("-");
        let p = render_padded(mag as u32, 4);
        s.append(p.as_str());
        proof {
            reveal_strlit("-");
            assert(s@ =~= seq!['-'] + pad_decimal((-(y as int)) as nat, 4));
        }
        s
    }
}

/// Writes the last two digits of the year.
fn render_year2(y: i32) -> (s: String)
    ensures
        s@ == year2(y as int),
{
    let v: u32 = if y >= 0 {
        (y % 100) as u32
    } else {
        let mag: i64 = -(y as i64);
        let r: i64 = mag % 100;
        if r == 0 {
            0u32
        } else {
            (100 - r) as u32
        }
    };
    proof {
        assert(v as nat == year2_val(y as int));
    }
    render_padded(v, 2)
}

/// Writes the hour on the 12-hour clock, two digits.
fn render_hour12(h: u8) -> (s: String)
    ensures
        s@ == pad_decimal(hour12_val(h as int), 2),
{
    let r = h % 12;
    if r == 0 {
        render_padded(12, 2)
    } else {
        render_padded(r as u32, 2)
    }
}

/// Writes the upper-case am/pm marker.
fn render_ampm_upper(h: u8) -> (s: String)
    ensures
        s@ == ampm_upper(h as int),
{
    if h < 12 {
        String::from_str("AM")
    } else {
        String::from_str("PM")
    }
}

/// Writes the lower-case am/pm marker.
fn render_ampm_lower(h: u8) -> (s: String)
    ensures
        s@ == ampm_lower(h as int),
{
    if h < 12 {
        String::from_str("am")
    } else {
        String::from_str("pm")
    }
}

/// Writes the abbreviated month name.
fn render_month_abbrev(m: u8) -> (s: String)
    requires
        1 <= m <= 12,
    ensures
        s@ == month_abbrev(m as int),
{
    if m == 1 {
        String::from_str("Jan")
    } else if m == 2 {
        String::from_str("Feb")
    } else if m == 3 {
        String::from_str("Mar")
    } else if m == 4 {
        String::from_str("Apr")
    } else if m == 5 {
        String::from_str("May")
    } else if m == 6 {
        String::from_str("Jun")
    } else if m == 7 {
        String::from_str("Jul")
    } else if m == 8 {
        String::from_str("Aug")
    } else if m == 9 {
        String::from_str("Sep")
    } else if m == 10 {
        String::from_str("Oct")
    } else if m == 11 {
        String::from_str("Nov")
    } else {
        String::from_str("Dec")
    }
}

/// Writes the full month name.
fn render_month_full(m: u8) -> (s: String)
    requires
        1 <= m <= 12,
    ensures
        s@ == month_full(m as int),
{
    if m == 1 {
        String::from_str("January")
    } else if m == 2 {
        String::from_str("February")
    } else if m == 3 {
        String::from_str("March")
    } else if m == 4 {
        String::from_str("April")
    } else if m == 5 {
        String::from_str("May")
    } else if m == 6 {
        String::from_str("June")
    } else if m == 7 {
        String::from_str("July")
    } else if m == 8 {
        String::from_str("August")
    } else if m == 9 {
        String::from_str("September")
    } else if m == 10 {
        String::from_str("October")
    } else if m == 11 {
        String::from_str("November")
    } else {
        String::from_str("December")
    }
}

/// Writes the abbreviated weekday name.
fn render_weekday_abbrev(d: u8) -> (s: String)
    requires
        d <= 6,
    ensures
        s@ == weekday_abbrev(d as int),
{
    if d == 0 {
        String::from_str("Mon")
    } else if d == 1 {
        String::from_str("Tue")
    } else if d == 2 {
        String::from_str("Wed")
    } else if d == 3 {
        String::from_str("Thu")
    } else if d == 4 {
        String::from_str("Fri")
    } else if d == 5 {
        String::from_str("Sat")
    } else {
        String::from_str("Sun")
    }
}

/// Writes the full weekday name.
fn render_weekday_full(d: u8) -> (s: String)
    requires
        d <= 6,
    ensures
        s@ == weekday_full(d as int),
{
    if d == 0 {
        String::from_str("Monday")
    } else if d == 1 {
        String::from_str("Tuesday")
    } else if d == 2 {
        String::from_str("Wednesday")
    } else if d == 3 {
        String::from_str("Thursday")
    } else if d == 4 {
        String::from_str("Friday")
    } else if d == 5 {
        String::from_str("Saturday")
    } else {
        String::from_str("Sunday")
    }
}

/// The optional data as the sequence the specification speaks of.
pub open spec fn ctx_view(optional: Option<&OptionalData>) -> Option<Seq<char>> {
    match optional {
        Some(o) => Some(o.file_name@),
        None => None,
    }
}

impl Parser {
    /// A fresh compiler whose session counter starts at zero.
    pub fn new() -> (p: Self)
        ensures
            p.counter == 0,
    {
        Parser { counter: 0 }
    }

    /// Compiles the pattern `name` against the timestamp `ts` and the
    /// optional per-file data, advancing the session counter by one first.
    ///
    /// On success the output is exactly what `compile_spec` assigns to the
    /// pattern for the advanced counter; on failure the error carries the
    /// column and kind of the first invalid directive, and nothing else is
    /// returned.
    pub fn parse(&mut self, name: &str, ts: &Timestamp, optional: Option<&OptionalData>) -> (r:
        Result<String, Error>)
        requires
            old(self).counter < u32::MAX,
            ts.wf(),
        ensures
            final(self).counter == old(self).counter + 1,
            ({
                let spec_r = compile_spec(
                    name@,
                    (old(self).counter + 1) as nat,
                    *ts,
                    ctx_view(optional),
                );
                match r {
                    Ok(s) => spec_r == Ok::<Seq<char>, (int, ErrorCode)>(s@),
                    Err(e) => spec_r == Err::<Seq<char>, (int, ErrorCode)>(
                        (e.column as int, e.code),
                    ) && e.message@ == error_message(name@, e.column as int, e.code),
                }
            }),
    {
        self.counter = self.counter + 1;
        let cnt = self.counter;
        let ghost ctx = ctx_view(optional);
        let ghost full = compile_spec(name@, cnt as nat, *ts, ctx);

        let n = name.unicode_len();
        let mut out = String::new();
        let mut i: usize = 0;
        let mut esc = false;
        let mut run: usize = 0;

        while i < n
            invariant
                i <= n,
                n == name@.len(),
                run <= i,
                cnt == self.counter,
                cnt == old(self).counter + 1,
                ts.wf(),
                ctx == ctx_view(optional),
                full == compile_spec(name@, cnt as nat, *ts, ctx),
                full == match compile_from(name@, i as int, esc, run as nat, cnt as nat, *ts, ctx) {
                    Ok(t) => Ok::<Seq<char>, (int, ErrorCode)>(out@ + t),
                    Err(e) => Err::<Seq<char>, (int, ErrorCode)>(e),
                },
            decreases n - i,
        {
            let c = name.get_char(i);
            let ghost p = name@;
            let ghost i0 = i as int;
            let ghost run0 = run as nat;
            let ghost esc0 = esc;
            let ghost out0 = out@;
            let ghost mut emitted: Seq<char> = Seq::empty();
            if c == '\\' && !esc {
                esc = true;
                i = i + 1;
                proof {
                    assert(compile_from(p, i0, esc0, run0, cnt as nat, *ts, ctx)
                        == compile_from(p, i0 + 1, true, run0, cnt as nat, *ts, ctx));
                }
            } else if c == '?' {
                run = run + 1;
                i = i + 1;
                proof {
                    assert(compile_from(p, i0, esc0, run0, cnt as nat, *ts, ctx)
                        == compile_from(p, i0 + 1, esc0, run0 + 1, cnt as nat, *ts, ctx));
                }
            } else {
                let ghost flushed: Seq<char> = if run0 > 0 {
                    pad_decimal(cnt as nat, run0)
                } else {
                    Seq::empty()
                };
                if run > 0 {
                    let padded = render_padded(cnt, run);
                    out.append(padded.as_str());
                    run = 0;
                }
                proof {
                    assert(out@ =~= out0 + flushed);
                }
                if esc {
                    proof {
                        emitted = directive_text(
                            c,
                            *ts,
                            if ctx is Some {
                                ctx.unwrap()
                            } else {
                                Seq::empty()
                            },
                        );
                    }
                    if c == '\\' {
                        push_char(&mut out, '\\');
                    } else if c == '0' {
                        match optional {
                            Some(o) => {
                                out.append(o.file_name.as_str());
                            },
                            None => {
                                proof {
                                    assert(ctx is None);
                                    assert(compile_from(p, i0, esc0, run0, cnt as nat, *ts, ctx)
                                        == Err::<Seq<char>, (int, ErrorCode)>(
                                        (i0, ErrorCode::NoOptionalData),
                                    ));
                                }
                                return Err(
                                    Error {
                                        code: ErrorCode::NoOptionalData,
                                        column: i,
                                        message: String::from_str("OptionalData not specified"),
                                    },
                                );
                            },
                        }
                    } else if c == 'Y' {
                        let t = render_year4(ts.year);
                        out.append(t.as_str());
                    } else if c == 'y' {
                        let t = render_year2(ts.year);
                        out.append(t.as_str());
                    } else if c == 'm' {
                        let t = render_padded(ts.month as u32, 2);
                        out.append(t.as_str());
                    } else if c == 'b' {
                        let t = render_month_abbrev(ts.month);
                        out.append(t.as_str());
                    } else if c == 'B' {
                        let t = render_month_full(ts.month);
                        out.append(t.as_str());
                    } else if c == 'd' {
                        let t = render_padded(ts.day as u32, 2);
                        out.append(t.as_str());
                    } else if c == 'a' {
                        let t = render_weekday_abbrev(ts.weekday);
                        out.append(t.as_str());
                    } else if c == 'A' {
                        let t = render_weekday_full(ts.weekday);
                        out.append(t.as_str());
                    } else if c == 'p' {
                        let t = render_ampm_upper(ts.hour);
                        out.append(t.as_str());
                    } else if c == 'P' {
                        let t = render_ampm_lower(ts.hour);
                        out.append(t.as_str());
                    } else if c == 'H' {
                        let t = render_padded(ts.hour as u32, 2);
                        out.append(t.as_str());
                    } else if c == 'I' {
                        let t = render_hour12(ts.hour);
                        out.append(t.as_str());
                    } else if c == 'M' {
                        let t = render_padded(ts.minute as u32, 2);
                        out.append(t.as_str());
                    } else if c == 'S' {
                        let t = render_padded(ts.second as u32, 2);
                        out.append(t.as_str());
                    } else {
                        let mut message = String::from_str("Invalid character: ");
                        push_char(&mut message, c);
                        proof {
                            assert(!is_directive_char(c));
                            assert(compile_from(p, i0, esc0, run0, cnt as nat, *ts, ctx)
                                == Err::<Seq<char>, (int, ErrorCode)>(
                                (i0, ErrorCode::InvalidCharacter),
                            ));
                            assert(message@ =~= "Invalid character: "@ + seq![p[i0]]);
                        }
                        return Err(Error { code: ErrorCode::InvalidCharacter, column: i, message });
                    }
                    esc = false;
                    proof {
                        assert(out@ =~= out0 + flushed + emitted);
                    }
                } else {
                    push_char(&mut out, c);
                    proof {
                        emitted = seq![c];
                        assert(out@ =~= out0 + flushed + emitted);
                    }
                }
                i = i + 1;
                proof {
                    let tail_r = compile_from(p, i0 + 1, false, 0, cnt as nat, *ts, ctx);
                    assert(compile_from(p, i0, esc0, run0, cnt as nat, *ts, ctx) == (match tail_r {
                        Ok(tail) => Ok::<Seq<char>, (int, ErrorCode)>(flushed + emitted + tail),
                        Err(e) => Err::<Seq<char>, (int, ErrorCode)>(e),
                    }));
                    if tail_r is Ok {
                        assert(out@ + tail_r->Ok_0 =~= out0 + (flushed + emitted
                            + tail_r->Ok_0));
                    }
                }
            }
        }
        let ghost out1 = out@;
        proof {
            assert(compile_from(name@, n as int, esc, run as nat, cnt as nat, *ts, ctx) == (
            if run > 0 {
                Ok::<Seq<char>, (int, ErrorCode)>(pad_decimal(cnt as nat, run as nat))
            } else {
                Ok::<Seq<char>, (int, ErrorCode)>(Seq::empty())
            }));
        }
        if run > 0 {
            let padded = render_padded(cnt, run);
            out.append(padded.as_str());
            proof {
                assert(out1 + pad_decimal(cnt as nat, run as nat) =~= out@);
            }
        } else {
            proof {
                assert(out1 + Seq::<char>::empty() =~= out@);
            }
        }
        Ok(out)
    }
}

} // verus!
