use vstd::prelude::*;

use crate::grammar::{at, digit_run, ident_s, ws_end};
use crate::parser::{ident_end, peek, skip_ws};
use crate::text::{all_digits, chars_of, digits_value, string_of};

verus! {

/// When a log line was written, as its numbers read.
#[derive(Clone, Copy, Debug, PartialEq, Eq, Structural)]
pub struct Timestamp {
    pub day: u32,
    pub month: u32,
    pub year: u32,
    pub hour: u32,
    pub minute: u32,
    pub second: u32,
}

/// The error code of a log line, as in `[ERRCODE: SC_ERR_INVALID_SIGNATURE(39)]`.
#[derive(Debug, PartialEq, Eq)]
pub struct SuricataErrorCode {
    pub err_type: String,
    pub err_code: u32,
}

/// One line of Suricata's log.
#[derive(Debug, PartialEq, Eq)]
pub struct LogMessage {
    pub timestamp: Timestamp,
    pub log_level: String,
    pub err_code: Option<SuricataErrorCode>,
    pub message: String,
}

/// A diagnostic of Suricata: the 1-based line it is about (0 where no
/// line was named before it), its error code and its message.
#[derive(Debug, PartialEq, Eq)]
pub struct EngineDiagnostic {
    pub line: u32,
    pub code: u32,
    pub message: String,
}

/// Whether `pat` occurs in `s` at index `i`.
pub open spec fn occurs_at(s: Seq<char>, pat: Seq<char>, i: int) -> bool {
    0 <= i && i + pat.len() <= s.len() && s.subrange(i, i + pat.len()) == pat
}

/// Whether `pat` occurs in `s`.
pub open spec fn occurs(s: Seq<char>, pat: Seq<char>) -> bool {
    exists|i: int| occurs_at(s, pat, i)
}

/// The number that std's `u32` parsing reads from `s`: an optional `+`, then
/// at least one digit, and nothing else, of a value that fits.
pub open spec fn u32_of(s: Seq<char>) -> Option<u32> {
    let d = if s.len() > 0 && s[0] == '+' { s.drop_first() } else { s };
    if d.len() > 0 && all_digits(d) && digits_value(d) <= u32::MAX {
        Some(digits_value(d) as u32)
    } else {
        None
    }
}

/// The characters after the last `at line ` of `s`.
pub open spec fn after_last_at_line(s: Seq<char>) -> Seq<char> {
    let pat = "at line "@;
    let i = choose|i: int| occurs_at(s, pat, i) && forall|j: int| occurs_at(s, pat, j) ==> j <= i;
    s.skip(i + pat.len())
}

/// A message that names the file and line of the errors before it.
pub open spec fn is_location(m: Seq<char>) -> bool {
    occurs(m, "at line "@) && occurs(m, "from file "@)
}

/// The line that a location message sets, `line` where it names none that reads.
pub open spec fn located_line(m: Seq<char>, line: u32) -> u32 {
    match u32_of(after_last_at_line(m)) {
        Some(n) => n,
        None => line,
    }
}

/// The diagnostics of the log lines, read from the last to the first: a line
/// with an error code that names a location sets the line of the errors read
/// after it; any other line with an error code is a diagnostic at the line set
/// last; lines without an error code are skipped.
pub open spec fn diagnostics_spec(logs: Seq<LogMessage>, line: u32) -> Seq<(u32, u32, Seq<char>)>
    decreases logs.len(),
{
    if logs.len() == 0 {
        seq![]
    } else {
        let l = logs.last();
        let rest = logs.drop_last();
        match l.err_code {
            None => diagnostics_spec(rest, line),
            Some(code) => if is_location(l.message@) {
                diagnostics_spec(rest, located_line(l.message@, line))
            } else {
                seq![(line, code.err_code, l.message@)] + diagnostics_spec(rest, line)
            },
        }
    }
}

/// Diagnostics as plain values.
pub open spec fn diagnostics_view(ds: Seq<EngineDiagnostic>) -> Seq<(u32, u32, Seq<char>)> {
    ds.map_values(|d: EngineDiagnostic| (d.line, d.code, d.message@))
}

/// Whether `pat` occurs in `s` at index `k`.
fn matches_at(s: &Vec<char>, pat: &Vec<char>, k: usize) -> (r: bool)
    requires
        k + pat@.len() <= s@.len(),
    ensures
        r == occurs_at(s@, pat@, k as int),
{
    let n = pat.len();
    let slen = s.len();
    let mut m: usize = 0;
    while m < n
        invariant
            n == pat@.len(),
            slen == s@.len(),
            k + n <= slen,
            m <= n,
            forall|t: int| 0 <= t < m ==> s@[k + t] == pat@[t],
        decreases n - m,
    {
        if s[k + m] != pat[m] {
            assert(s@.subrange(k as int, k + n)[m as int] == s@[k + m]);
            return false;
        }
        m = m + 1;
    }
    assert(s@.subrange(k as int, k + n) =~= pat@);
    true
}

/// The last index at which `pat` occurs in `s`.
pub fn rfind(s: &Vec<char>, pat: &Vec<char>) -> (r: Option<usize>)
    ensures
        r matches Some(i) ==> occurs_at(s@, pat@, i as int) && forall|j: int| occurs_at(s@, pat@, j) ==> j <= i,
        r is None ==> !occurs(s@, pat@),
{
    if pat.len() > s.len() {
        return None;
    }
    let mut k: usize = s.len() - pat.len();
    loop
        invariant
            pat@.len() <= s@.len(),
            k + pat@.len() <= s@.len(),
            forall|j: int| k < j && occurs_at(s@, pat@, j) ==> false,
        decreases k,
    {
        if matches_at(s, pat, k) {
            return Some(k);
        }
        if k == 0 {
            return None;
        }
        k = k - 1;
    }
}

/// The number that std's `u32` parsing reads from `s[from..]`.
pub fn parse_u32(s: &Vec<char>, from: usize) -> (r: Option<u32>)
    requires
        from <= s@.len(),
    ensures
        r == u32_of(s@.skip(from as int)),
{
    let ghost t = s@.skip(from as int);
    let mut p = from;
    if p < s.len() && s[p] == '+' {
        p = p + 1;
    }
    let ghost d = s@.skip(p as int);
    assert(d == (if t.len() > 0 && t[0] == '+' { t.drop_first() } else { t }));
    if p == s.len() {
        return None;
    }
    let mut v: u64 = 0;
    let mut i = p;
    while i < s.len()
        invariant
            p <= i <= s@.len(),
            d == s@.skip(p as int),
            t == s@.skip(from as int),
            d == (if t.len() > 0 && t[0] == '+' { t.drop_first() } else { t }),
            all_digits(s@.subrange(p as int, i as int)),
            v == digits_value(s@.subrange(p as int, i as int)),
            v <= u32::MAX,
        decreases s@.len() - i,
    {
        let c = s[i];
        if !('0' <= c && c <= '9') {
            assert(s@[i as int] == c);
            assert(d[i - p] == c);
            return None;
        }
        let nv = v * 10 + (c as u32 - '0' as u32) as u64;
        assert(s@.subrange(p as int, i + 1).drop_last() == s@.subrange(p as int, i as int));
        if nv > 0xffff_ffff {
            proof {
                if all_digits(d) {
                    lemma_digits_grow(d, (i + 1 - p) as int);
                    assert(d.subrange(0, (i + 1 - p) as int) == s@.subrange(p as int, i + 1));
                }
            }
            assert(!(all_digits(d) && digits_value(d) <= u32::MAX));
            return None;
        }
        v = nv;
        i = i + 1;
    }
    assert(s@.subrange(p as int, s@.len() as int) == d);
    Some(v as u32)
}

/// A prefix of digits never has a larger value than the whole digit text.
proof fn lemma_digits_grow(d: Seq<char>, k: int)
    requires
        0 <= k <= d.len(),
        all_digits(d),
    ensures
        digits_value(d.subrange(0, k)) <= digits_value(d),
    decreases d.len() - k,
{
    if k < d.len() {
        lemma_digits_grow(d, k + 1);
        assert(d.subrange(0, k + 1).drop_last() == d.subrange(0, k));
        assert('0' <= d[k]);
    } else {
        assert(d.subrange(0, k) == d);
    }
}

/// The diagnostics of Suricata's log lines (see `diagnostics_spec`),
/// with no line known at first.
pub fn diagnostics_from_logs(logs: &Vec<LogMessage>) -> (r: Vec<EngineDiagnostic>)
    ensures
        diagnostics_view(r@) == diagnostics_spec(logs@, 0),
{
    let at_line = crate::text::chars_of("at line ");
    let from_file = crate::text::chars_of("from file ");
    proof {
        reveal_strlit("at line ");
    }
    let mut out: Vec<EngineDiagnostic> = Vec::new();
    let mut curr_line: u32 = 0;
    let mut i = logs.len();
    assert(logs@.take(i as int) == logs@);
    while i > 0
        invariant
            i <= logs@.len(),
            at_line@.len() == 8,
            at_line@ == "at line "@,
            from_file@ == "from file "@,
            diagnostics_view(out@) + diagnostics_spec(logs@.take(i as int), curr_line) == diagnostics_spec(logs@, 0),
        decreases i,
    {
        let ghost before = diagnostics_view(out@);
        let ghost line0 = curr_line;
        assert(logs@.take(i as int).drop_last() == logs@.take(i - 1));
        assert(logs@.take(i as int).last() == logs@[i - 1]);
        let l = &logs[i - 1];
        if let Some(code) = &l.err_code {
            let message = crate::text::chars_of(l.message.as_str());
            let last = rfind(&message, &at_line);
            let located = match last {
                Some(_) => rfind(&message, &from_file).is_some(),
                None => false,
            };
            if located {
                let k = last.unwrap();
                let mlen = message.len();
                assert(k + 8 <= mlen);
                let skip_to = k + 8;
                proof {
                    assert(after_last_at_line(message@) == message@.skip(skip_to as int));
                }
                match parse_u32(&message, skip_to) {
                    Some(n) => curr_line = n,
                    None => {},
                }
            } else {
                out.push(EngineDiagnostic { line: curr_line, code: code.err_code, message: l.message.clone() });
                assert(diagnostics_view(out@) == before.push((line0, code.err_code, l.message@)));
            }
        }
        i = i - 1;
    }
    assert(logs@.take(logs@.len() as int) == logs@);
    out
}

/// Decimal digits at `p` (leading zeros allowed) whose value fits in `u32`:
/// the value and the end.
pub open spec fn num_s(cs: Seq<char>, p: int) -> Option<(u32, int)> {
    let e = digit_run(cs, p);
    if e > p && digits_value(cs.subrange(p, e)) <= u32::MAX {
        Some((digits_value(cs.subrange(p, e)) as u32, e))
    } else {
        None
    }
}

/// Three numbers separated by `sep` at `p`, as in `18/10/2026` or `06:09:00`.
pub open spec fn triple_s(cs: Seq<char>, p: int, sep: char) -> Option<((u32, u32, u32), int)> {
    match num_s(cs, p) {
        None => None,
        Some((a, e1)) => if !at(cs, e1, sep) { None } else {
            match num_s(cs, e1 + 1) {
                None => None,
                Some((b, e2)) => if !at(cs, e2, sep) { None } else {
                    match num_s(cs, e2 + 1) {
                        None => None,
                        Some((c, e3)) => Some(((a, b, c), e3)),
                    }
                },
            }
        },
    }
}

/// The characters of `lit` stand at `p`.
pub open spec fn lit_s(cs: Seq<char>, p: int, lit: Seq<char>) -> bool {
    0 <= p && p + lit.len() <= cs.len() && cs.subrange(p, p + lit.len()) == lit
}

/// An error code as plain values.
pub struct CodeV {
    pub err_type: Seq<char>,
    pub err_code: u32,
}

/// A log line as plain values.
pub struct LogV {
    pub timestamp: Timestamp,
    pub log_level: Seq<char>,
    pub err_code: Option<CodeV>,
    pub message: Seq<char>,
}

pub open spec fn code_v(c: SuricataErrorCode) -> CodeV {
    CodeV { err_type: c.err_type@, err_code: c.err_code }
}

pub open spec fn log_v(m: LogMessage) -> LogV {
    LogV {
        timestamp: m.timestamp,
        log_level: m.log_level@,
        err_code: match m.err_code {
            Some(c) => Some(code_v(c)),
            None => None,
        },
        message: m.message@,
    }
}

pub open spec fn logs_v(ms: Seq<LogMessage>) -> Seq<LogV>
    decreases ms.len(),
{
    if ms.len() == 0 {
        seq![]
    } else {
        logs_v(ms.drop_last()).push(log_v(ms.last()))
    }
}

/// An error code at `pos`: `[ERRCODE: NAME(number)]`, with the white space
/// around it.
pub open spec fn code_s(cs: Seq<char>, pos: int) -> Option<(CodeV, int)> {
    let p = ws_end(cs, pos);
    if !(at(cs, p, '[') && lit_s(cs, p + 1, "ERRCODE:"@)) {
        None
    } else {
        let q = ws_end(cs, p + 1 + "ERRCODE:"@.len());
        match ident_s(cs, q) {
            None => None,
            Some(e) => {
                let r = ws_end(cs, e);
                if !at(cs, r, '(') {
                    None
                } else {
                    match num_s(cs, r + 1) {
                        None => None,
                        Some((c, r2)) => if !at(cs, r2, ')') {
                            None
                        } else {
                            let r3 = ws_end(cs, r2 + 1);
                            if !at(cs, r3, ']') {
                                None
                            } else {
                                Some((CodeV { err_type: cs.subrange(q, e), err_code: c }, ws_end(cs, r3 + 1)))
                            }
                        },
                    }
                }
            },
        }
    }
}

/// A line end: `\n`, `\r\n` or `\r`.
pub open spec fn is_line_end(c: char) -> bool {
    c == '\n' || c == '\r'
}

/// The end of the run of characters other than line ends from `p`.
pub open spec fn line_run(cs: Seq<char>, p: int) -> int
    decreases cs.len() - p,
{
    if 0 <= p < cs.len() && !is_line_end(cs[p]) {
        line_run(cs, p + 1)
    } else {
        p
    }
}

/// What follows the level of a log line at `p8`: an optional error code, an
/// optional `-`, and the message up to the end of the line; the line end is
/// taken too.
pub open spec fn log_rest_s(cs: Seq<char>, p8: int) -> (Option<CodeV>, Seq<char>, int) {
    let (code, p9) = match code_s(cs, p8) {
        Some((c, e)) => (Some(c), e),
        None => (None, p8),
    };
    let p10 = if at(cs, p9, '-') { ws_end(cs, p9 + 1) } else { p9 };
    let e = line_run(cs, p10);
    let e1 = if at(cs, e, '\r') { e + 1 } else { e };
    let e2 = if at(cs, e1, '\n') { e1 + 1 } else { e1 };
    (code, cs.subrange(p10, e), e2)
}

/// One log line at `pos`: `dd/mm/yyyy -- hh:mm:ss - <Level> - `, an optional
/// error code and `-`, then the message up to the end of the line.
pub open spec fn log_s(cs: Seq<char>, pos: int) -> Option<(LogV, int)> {
    let p0 = ws_end(cs, pos);
    match triple_s(cs, p0, '/') {
        None => None,
        Some((d, p1)) => {
            let p2 = ws_end(cs, p1);
            if !(at(cs, p2, '-') && at(cs, p2 + 1, '-')) {
                None
            } else {
                match triple_s(cs, ws_end(cs, p2 + 2), ':') {
                    None => None,
                    Some((t, p4)) => {
                        let p5 = ws_end(cs, p4);
                        let p6 = ws_end(cs, p5 + 1);
                        if !(at(cs, p5, '-') && at(cs, p6, '<')) {
                            None
                        } else {
                            match ident_s(cs, p6 + 1) {
                                None => None,
                                Some(le) => {
                                    let p7 = ws_end(cs, le + 1);
                                    if !(at(cs, le, '>') && at(cs, p7, '-')) {
                                        None
                                    } else {
                                        let (code, message, end) = log_rest_s(cs, ws_end(cs, p7 + 1));
                                        Some((LogV {
                                            timestamp: Timestamp { day: d.0, month: d.1, year: d.2, hour: t.0, minute: t.1, second: t.2 },
                                            log_level: cs.subrange(p6 + 1, le),
                                            err_code: code,
                                            message,
                                        }, end))
                                    }
                                },
                            }
                        }
                    },
                }
            }
        },
    }
}

/// The log lines at `p` and after, read one after the other until one does
/// not read as a log line.
pub open spec fn logs_s(cs: Seq<char>, p: int) -> Seq<LogV>
    decreases cs.len() - p,
{
    if p < 0 || p > cs.len() {
        seq![]
    } else {
        match log_s(cs, p) {
            Some((m, e)) => if p < e <= cs.len() { seq![m] + logs_s(cs, e) } else { seq![] },
            None => seq![],
        }
    }
}

/// Decimal digits at `pos` whose value fits in `u32` (see `num_s`).
fn number_at(cs: &Vec<char>, pos: usize) -> (r: Option<(u32, usize)>)
    requires
        pos <= cs@.len(),
    ensures
        r matches Some((v, e)) ==> pos < e <= cs@.len() && num_s(cs@, pos as int) == Some((v, e as int)),
        r is None ==> num_s(cs@, pos as int) is None,
{
    let mut v: u64 = 0;
    let mut i = pos;
    let mut fits = true;
    while i < cs.len() && '0' <= cs[i] && cs[i] <= '9'
        invariant
            pos <= i <= cs@.len(),
            digit_run(cs@, i as int) == digit_run(cs@, pos as int),
            fits ==> v == digits_value(cs@.subrange(pos as int, i as int)) && v <= u32::MAX,
            !fits ==> digits_value(cs@.subrange(pos as int, i as int)) > u32::MAX,
        decreases cs@.len() - i,
    {
        let d = (cs[i] as u32 - '0' as u32) as u64;
        let ghost old_val = digits_value(cs@.subrange(pos as int, i as int));
        assert(cs@.subrange(pos as int, i + 1).drop_last() == cs@.subrange(pos as int, i as int));
        assert(cs@.subrange(pos as int, i + 1).last() == cs@[i as int]);
        let ghost new_val = digits_value(cs@.subrange(pos as int, i + 1));
        assert(new_val == old_val * 10 + d);
        if fits {
            v = v * 10 + d;
            if v > 0xffff_ffff {
                fits = false;
            }
        } else {
            assert(new_val > u32::MAX) by (nonlinear_arith)
                requires new_val == old_val * 10 + d, old_val > u32::MAX;
        }
        i = i + 1;
    }
    if i == pos || !fits {
        return None;
    }
    Some((v as u32, i))
}

/// Three numbers separated by `sep` (see `triple_s`).
fn triple_at(cs: &Vec<char>, pos: usize, sep: char) -> (r: Option<((u32, u32, u32), usize)>)
    requires
        pos <= cs@.len(),
    ensures
        r matches Some((t, e)) ==> pos < e <= cs@.len() && triple_s(cs@, pos as int, sep) == Some((t, e as int)),
        r is None ==> triple_s(cs@, pos as int, sep) is None,
{
    let (a, p) = match number_at(cs, pos) {
        Some(x) => x,
        None => {
            return None;
        },
    };
    if !peek(cs, p, sep) {
        return None;
    }
    let (b, p) = match number_at(cs, p + 1) {
        Some(x) => x,
        None => {
            return None;
        },
    };
    if !peek(cs, p, sep) {
        return None;
    }
    let (c, p) = match number_at(cs, p + 1) {
        Some(x) => x,
        None => {
            return None;
        },
    };
    Some(((a, b, c), p))
}

/// Whether the characters of `lit` stand at `pos`; returns their end.
fn literal_at(cs: &Vec<char>, pos: usize, lit: &str) -> (r: Option<usize>)
    requires
        pos <= cs@.len(),
    ensures
        r is Some <==> lit_s(cs@, pos as int, lit@),
        r matches Some(e) ==> e == pos + lit@.len(),
{
    let l = chars_of(lit);
    let n = cs.len();
    if l.len() > n - pos {
        return None;
    }
    let mut k: usize = 0;
    while k < l.len()
        invariant
            n == cs@.len(),
            l@ == lit@,
            pos + l@.len() <= n,
            k <= l@.len(),
            forall|t: int| 0 <= t < k ==> cs@[pos + t] == l@[t],
        decreases l@.len() - k,
    {
        if cs[pos + k] != l[k] {
            assert(cs@.subrange(pos as int, pos + l@.len())[k as int] == cs@[pos + k]);
            return None;
        }
        k = k + 1;
    }
    assert(cs@.subrange(pos as int, pos + l@.len()) =~= l@);
    Some(pos + l.len())
}

impl SuricataErrorCode {
    /// An error code at `pos` (see `code_s`).
    pub fn parser(cs: &Vec<char>, pos: usize) -> (r: Option<(SuricataErrorCode, usize)>)
        requires
            pos <= cs@.len(),
        ensures
            r matches Some((c, e)) ==> pos < e <= cs@.len() && code_s(cs@, pos as int) == Some((code_v(c), e as int)),
            r is None ==> code_s(cs@, pos as int) is None,
    {
        let p = skip_ws(cs, pos);
        if !peek(cs, p, '[') {
            return None;
        }
        let p = match literal_at(cs, p + 1, "ERRCODE:") {
            Some(e) => skip_ws(cs, e),
            None => {
                return None;
            },
        };
        let e = match ident_end(cs, p) {
            Some(e) => e,
            None => {
                return None;
            },
        };
        let err_type = string_of(cs, p, e);
        let q = skip_ws(cs, e);
        if !peek(cs, q, '(') {
            return None;
        }
        let (code, q) = match number_at(cs, q + 1) {
            Some(x) => x,
            None => {
                return None;
            },
        };
        if !peek(cs, q, ')') {
            return None;
        }
        let q = skip_ws(cs, q + 1);
        if !peek(cs, q, ']') {
            return None;
        }
        let q = skip_ws(cs, q + 1);
        Some((SuricataErrorCode { err_type, err_code: code }, q))
    }
}

impl LogMessage {
    /// One log line at `pos` (see `log_s`).
    #[verifier::rlimit(60)]
    pub fn parser(cs: &Vec<char>, pos: usize) -> (r: Option<(LogMessage, usize)>)
        requires
            pos <= cs@.len(),
        ensures
            r matches Some((m, e)) ==> pos < e <= cs@.len() && log_s(cs@, pos as int) == Some((log_v(m), e as int)),
            r is None ==> log_s(cs@, pos as int) is None,
    {
        let p = skip_ws(cs, pos);
        let ((day, month, year), p1) = match triple_at(cs, p, '/') {
            Some(x) => x,
            None => {
                return None;
            },
        };
        let p2 = skip_ws(cs, p1);
        if !(peek(cs, p2, '-') && peek(cs, p2 + 1, '-')) {
            return None;
        }
        let p3 = skip_ws(cs, p2 + 2);
        let ((hour, minute, second), p4) = match triple_at(cs, p3, ':') {
            Some(x) => x,
            None => {
                return None;
            },
        };
        let p5 = skip_ws(cs, p4);
        if !peek(cs, p5, '-') {
            return None;
        }
        let p6 = skip_ws(cs, p5 + 1);
        if !peek(cs, p6, '<') {
            return None;
        }
        let le = match ident_end(cs, p6 + 1) {
            Some(e) => e,
            None => {
                return None;
            },
        };
        let log_level = string_of(cs, p6 + 1, le);
        if !peek(cs, le, '>') {
            return None;
        }
        let p7 = skip_ws(cs, le + 1);
        if !peek(cs, p7, '-') {
            return None;
        }
        let p8 = skip_ws(cs, p7 + 1);
        let (err_code, p9) = match SuricataErrorCode::parser(cs, p8) {
            Some((c, e)) => (Some(c), e),
            None => (None, p8),
        };
        let p10 = if peek(cs, p9, '-') {
            skip_ws(cs, p9 + 1)
        } else {
            p9
        };
        let mut e = p10;
        while e < cs.len() && cs[e] != '\n' && cs[e] != '\r'
            invariant
                p10 <= e <= cs@.len(),
                line_run(cs@, e as int) == line_run(cs@, p10 as int),
            decreases cs@.len() - e,
        {
            e = e + 1;
        }
        let message = string_of(cs, p10, e);
        let mut end = e;
        if peek(cs, end, '\r') {
            end = end + 1;
        }
        if peek(cs, end, '\n') {
            end = end + 1;
        }
        let timestamp = Timestamp { day, month, year, hour, minute, second };
        let m = LogMessage { timestamp, log_level, err_code, message };
        proof {
            assert(log_rest_s(cs@, p8 as int) == (log_v(m).err_code, message@, end as int));
        }
        Some((m, end))
    }

    /// The log lines at the start of the text (see `logs_s`).
    pub fn parse_logs(text: &str) -> (r: Vec<LogMessage>)
        ensures
            logs_v(r@) == logs_s(text@, 0),
    {
        let cs = chars_of(text);
        let mut logs: Vec<LogMessage> = Vec::new();
        let mut p: usize = 0;
        assert(logs_v(logs@) + logs_s(cs@, 0) =~= logs_s(cs@, 0));
        loop
            invariant
                p <= cs@.len(),
                cs@ == text@,
                logs_v(logs@) + logs_s(cs@, p as int) == logs_s(cs@, 0),
            decreases cs@.len() - p,
        {
            match LogMessage::parser(&cs, p) {
                Some((m, e)) => {
                    let ghost before = logs@;
                    let ghost mv = log_v(m);
                    logs.push(m);
                    assert(logs@.drop_last() == before);
                    assert(logs_v(logs@) == logs_v(before).push(mv));
                    assert(logs_v(before) + (seq![mv] + logs_s(cs@, e as int)) =~= logs_v(logs@) + logs_s(cs@, e as int));
                    p = e;
                },
                None => {
                    assert(logs_v(logs@) + Seq::<LogV>::empty() =~= logs_v(logs@));
                    return logs;
                },
            }
        }
    }
}

} // verus!
