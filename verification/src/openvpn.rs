//! Launch parameters for the bundled OpenVPN client and interpretation of
//! its log, used by the public VPN mode.

use vstd::prelude::*;
use crate::text::{
    ascii_lower_chars, ascii_lower_str, cat2, chars_of, contains, decimal, decimal_chars, join, lit,
    owned, push_all, split, split_chars, str_contains, string_from_chars, string_views, trim,
    trim_chars, views,
};

verus! {

// ---------------------------------------------------------------------------
// Launch arguments
// ---------------------------------------------------------------------------

/// The OpenVPN argument list shared by every launch path.
///
/// Compatibility cipher flags let older configs published by free servers
/// negotiate with a modern OpenVPN; `block-outside-dns` is filtered out so the
/// privileged WFP component is not required; with `wintun_driver` the
/// bundled Wintun data-plane driver is forced, so no TAP adapter needs to be
/// installed. A log file is written so failures can be explained.
pub open spec fn ovpn_args_spec(config: Seq<char>, mgmt_port: u16, log: Seq<char>, wintun_driver: bool) -> Seq<Seq<char>> {
    seq![
        "--config"@,
        config,
        "--management"@,
        "127.0.0.1"@,
        decimal(mgmt_port as nat),
        "--management-query-passwords"@,
        "--data-ciphers"@,
        "AES-256-GCM:AES-128-GCM:AES-256-CBC:AES-128-CBC:BF-CBC"@,
        "--data-ciphers-fallback"@,
        "AES-128-CBC"@,
        "--connect-retry-max"@,
        "3"@,
        "--pull-filter"@,
        "ignore"@,
        "block-outside-dns"@,
        "--verb"@,
        "3"@,
        "--log"@,
        log,
    ] + if wintun_driver {
        seq!["--windows-driver"@, "wintun"@]
    } else {
        Seq::<Seq<char>>::empty()
    }
}

/// The OpenVPN arguments for a config file, a management port and a log
/// file (paths given as text).
pub fn ovpn_args(config: &str, mgmt_port: u16, log: &str, wintun_driver: bool) -> (a: Vec<String>)
    ensures
        string_views(a@) == ovpn_args_spec(config@, mgmt_port, log@, wintun_driver),
{
    let port = decimal_chars(mgmt_port as u64);
    let mut a: Vec<String> = Vec::new();
    a.push(owned("--config"));
    a.push(owned(config));
    a.push(owned("--management"));
    a.push(owned("127.0.0.1"));
    a.push(string_from_chars(port.as_slice()));
    a.push(owned("--management-query-passwords"));
    a.push(owned("--data-ciphers"));
    a.push(owned("AES-256-GCM:AES-128-GCM:AES-256-CBC:AES-128-CBC:BF-CBC"));
    a.push(owned("--data-ciphers-fallback"));
    a.push(owned("AES-128-CBC"));
    a.push(owned("--connect-retry-max"));
    a.push(owned("3"));
    a.push(owned("--pull-filter"));
    a.push(owned("ignore"));
    a.push(owned("block-outside-dns"));
    a.push(owned("--verb"));
    a.push(owned("3"));
    a.push(owned("--log"));
    a.push(owned(log));
    if wintun_driver {
        a.push(owned("--windows-driver"));
        a.push(owned("wintun"));
    }
    assert(string_views(a@) =~= ovpn_args_spec(config@, mgmt_port, log@, wintun_driver));
    a
}

// ---------------------------------------------------------------------------
// Elevated launch
// ---------------------------------------------------------------------------

/// One argument as quoted for a single command line: quoted when empty or
/// when it contains a space or a tab.
pub open spec fn quote_param(a: Seq<char>) -> Seq<char> {
    if a.len() == 0 || contains(a, " "@) || contains(a, "\t"@) {
        seq!['"'] + a + seq!['"']
    } else {
        a
    }
}

/// The command line for an argument vector: each argument quoted as needed,
/// separated by single spaces.
pub open spec fn join_params_spec(args: Seq<Seq<char>>) -> Seq<char> {
    join(args.map_values(|a: Seq<char>| quote_param(a)), ' ')
}

fn quote_one(a: &str) -> (q: Vec<char>)
    ensures
        q@ == quote_param(a@),
{
    let ac = chars_of(a);
    if ac.len() == 0 || str_contains(ac.as_slice(), " ") || str_contains(ac.as_slice(), "\t") {
        let mut q: Vec<char> = Vec::new();
        q.push('"');
        push_all(&mut q, ac.as_slice());
        q.push('"');
        assert(q@ =~= seq!['"'] + a@ + seq!['"']);
        q
    } else {
        ac
    }
}

/// Re-quote an argument vector into one command line for a shell launch.
/// All arguments are app-controlled (constant flags plus generated paths).
pub fn join_params(args: &Vec<String>) -> (s: String)
    ensures
        s@ == join_params_spec(string_views(args@)),
{
    let ghost q = string_views(args@).map_values(|a: Seq<char>| quote_param(a));
    let n = args.len();
    let mut out: Vec<char> = Vec::new();
    assert(q.take(0) =~= Seq::<Seq<char>>::empty());
    for i in 0..n
        invariant
            n == args@.len(),
            q == string_views(args@).map_values(|a: Seq<char>| quote_param(a)),
            out@ == join(q.take(i as int), ' '),
    {
        let qi = quote_one(args[i].as_str());
        assert(q[i as int] == qi@);
        let ghost t = q.take(i + 1);
        assert(t.drop_last() == q.take(i as int));
        if i > 0 {
            out.push(' ');
        }
        push_all(&mut out, qi.as_slice());
        if i == 0 {
            assert(t =~= seq![qi@]);
            assert(out@ =~= join(t, ' '));
        } else {
            assert(out@ =~= join(t, ' '));
        }
    }
    assert(q.take(n as int) == q);
    string_from_chars(out.as_slice())
}

/// The UTF-16 code units of one character.
pub open spec fn utf16_of(c: char) -> Seq<u16> {
    let v = c as u32;
    if v < 0x10000 {
        seq![v as u16]
    } else {
        seq![(0xD800 + (v - 0x10000) / 1024) as u16, (0xDC00 + (v - 0x10000) % 1024) as u16]
    }
}

/// The UTF-16 encoding of a string (`str::encode_utf16`).
pub open spec fn utf16_of_str(s: Seq<char>) -> Seq<u16>
    decreases s.len(),
{
    if s.len() == 0 {
        Seq::<u16>::empty()
    } else {
        utf16_of_str(s.drop_last()) + utf16_of(s.last())
    }
}

/// A NUL-terminated UTF-16 string, as Windows wide-character APIs expect.
pub fn wide(s: &str) -> (w: Vec<u16>)
    ensures
        w@ == utf16_of_str(s@).push(0u16),
{
    let cs = chars_of(s);
    let n = cs.len();
    let mut w: Vec<u16> = Vec::new();
    assert(cs@.take(0) =~= Seq::<char>::empty());
    for i in 0..n
        invariant
            n == cs@.len(),
            cs@ == s@,
            w@ == utf16_of_str(cs@.take(i as int)),
    {
        let c = cs[i];
        let v = c as u32;
        assert(cs@.take(i + 1).drop_last() == cs@.take(i as int));
        assert(cs@.take(i + 1).last() == c);
        if v < 0x10000 {
            w.push(v as u16);
        } else {
            proof {
                vstd::utf8::char_is_scalar(c);
            }
            w.push((0xD800 + (v - 0x10000) / 1024) as u16);
            w.push((0xDC00 + (v - 0x10000) % 1024) as u16);
        }
        assert(w@ =~= utf16_of_str(cs@.take(i + 1)));
    }
    assert(cs@.take(n as int) == cs@);
    w.push(0);
    w
}

/// The handle of an OpenVPN process launched elevated. A zero handle stands
/// for no process: it counts as exited, and there is nothing to terminate or
/// close.
#[derive(Debug)]
pub struct ElevatedChild {
    pub handle: isize,
}

impl ElevatedChild {
    /// Take ownership of a process handle.
    pub fn new(handle: isize) -> (c: ElevatedChild)
        ensures
            c.handle == handle,
    {
        ElevatedChild { handle }
    }

    /// Whether the handle refers to a process that can be waited on,
    /// terminated and closed.
    pub fn holds_process(&self) -> (b: bool)
        ensures
            b == (self.handle != 0),
    {
        self.handle != 0
    }
}

/// The Windows error code of a cancelled elevation prompt.
pub const ERROR_CANCELLED: u32 = 1223;

/// The message shown when OpenVPN could not be launched elevated.
pub open spec fn elevation_failure_text(code: u32) -> Seq<char> {
    if code == ERROR_CANCELLED {
        "Administrator approval is required to create the VPN tunnel. The request was cancelled — click Connect again and choose Yes."@
    } else {
        "Could not launch OpenVPN (Windows error "@ + decimal(code as nat) + ")."@
    }
}

/// The message for a failed elevated launch with the given Windows error code.
pub fn elevation_failure_message(code: u32) -> (s: String)
    ensures
        s@ == elevation_failure_text(code),
{
    if code == ERROR_CANCELLED {
        owned("Administrator approval is required to create the VPN tunnel. The request was cancelled — click Connect again and choose Yes.")
    } else {
        let d = decimal_chars(code as u64);
        let mut v = lit("Could not launch OpenVPN (Windows error ");
        push_all(&mut v, d.as_slice());
        crate::text::push_str(&mut v, ").");
        string_from_chars(v.as_slice())
    }
}

// ---------------------------------------------------------------------------
// Log interpretation
// ---------------------------------------------------------------------------

/// Keep at most `max` characters, marking a cut with a trailing `…`.
pub open spec fn truncate_spec(s: Seq<char>, max: nat) -> Seq<char> {
    if s.len() <= max {
        s
    } else {
        s.take(if max >= 1 {
            max - 1
        } else {
            0
        }).push('…')
    }
}

/// Keep at most `max` characters of `s`; a longer text keeps its first
/// `max - 1` characters followed by `…`.
pub fn truncate_chars(s: &str, max: usize) -> (r: String)
    ensures
        r@ == truncate_spec(s@, max as nat),
{
    let cs = chars_of(s);
    if cs.len() <= max {
        return string_from_chars(cs.as_slice());
    }
    let keep = if max >= 1 {
        max - 1
    } else {
        0
    };
    let mut out = crate::text::slice_chars(cs.as_slice(), 0, keep);
    out.push('…');
    string_from_chars(out.as_slice())
}

/// A log line reads like an error when its ASCII lowercase contains one of
/// the error keywords.
pub open spec fn is_error_line(l: Seq<char>) -> bool {
    let low = ascii_lower_str(l);
    ||| contains(low, "error"@)
    ||| contains(low, "fatal"@)
    ||| contains(low, "cannot"@)
    ||| contains(low, "permission"@)
    ||| contains(low, "administrator"@)
    ||| contains(low, "all tap"@)
    ||| contains(low, "there are no"@)
    ||| contains(low, "failed"@)
    ||| contains(low, "exiting due to"@)
}

/// The last non-blank line (trimmed), if any.
pub open spec fn last_meaningful(lines: Seq<Seq<char>>) -> Option<Seq<char>>
    decreases lines.len(),
{
    if lines.len() == 0 {
        None
    } else if trim(lines.last()).len() > 0 {
        Some(trim(lines.last()))
    } else {
        last_meaningful(lines.drop_last())
    }
}

/// The last non-blank line (trimmed) that reads like an error, if any.
pub open spec fn last_error(lines: Seq<Seq<char>>) -> Option<Seq<char>>
    decreases lines.len(),
{
    if lines.len() == 0 {
        None
    } else if trim(lines.last()).len() > 0 && is_error_line(trim(lines.last())) {
        Some(trim(lines.last()))
    } else {
        last_error(lines.drop_last())
    }
}

/// The reason distilled from an OpenVPN log: the last error-like line, or
/// else the last line written, cut to 240 characters.
pub open spec fn log_reason_spec(log: Seq<char>) -> Option<Seq<char>> {
    let lines = split(log, '\n');
    match last_error(lines) {
        Some(e) => Some(truncate_spec(e, 240)),
        None => match last_meaningful(lines) {
            Some(m) => Some(truncate_spec(m, 240)),
            None => None,
        },
    }
}

/// A reason distilled from a log is never longer than 240 characters, and
/// is never empty: it is a non-blank line of the log, or a cut of one.
pub proof fn log_reason_is_short(log: Seq<char>)
    ensures
        log_reason_spec(log) matches Some(r) ==> 0 < r.len() <= 240,
{
    lemma_last_lines_nonblank(split(log, '\n'));
}

/// A log line is an error line exactly when its ASCII lowercase contains one
/// of the error keywords: "error", "fatal", "cannot", "permission",
/// "administrator", "all tap", "there are no", "failed" or "exiting due to".
pub proof fn error_keywords_mark_error_lines(l: Seq<char>)
    ensures
        contains(ascii_lower_str(l), "error"@) ==> is_error_line(l),
        contains(ascii_lower_str(l), "fatal"@) ==> is_error_line(l),
        contains(ascii_lower_str(l), "cannot"@) ==> is_error_line(l),
        contains(ascii_lower_str(l), "permission"@) ==> is_error_line(l),
        contains(ascii_lower_str(l), "administrator"@) ==> is_error_line(l),
        contains(ascii_lower_str(l), "all tap"@) ==> is_error_line(l),
        contains(ascii_lower_str(l), "there are no"@) ==> is_error_line(l),
        contains(ascii_lower_str(l), "failed"@) ==> is_error_line(l),
        contains(ascii_lower_str(l), "exiting due to"@) ==> is_error_line(l),
        is_error_line(l) ==> {
            let low = ascii_lower_str(l);
            ||| contains(low, "error"@)
            ||| contains(low, "fatal"@)
            ||| contains(low, "cannot"@)
            ||| contains(low, "permission"@)
            ||| contains(low, "administrator"@)
            ||| contains(low, "all tap"@)
            ||| contains(low, "there are no"@)
            ||| contains(low, "failed"@)
            ||| contains(low, "exiting due to"@)
        },
{
}

proof fn lemma_last_error_at(lines: Seq<Seq<char>>, k: int)
    requires
        0 <= k < lines.len(),
        trim(lines[k]).len() > 0 && is_error_line(trim(lines[k])),
        forall|j: int| k < j < lines.len() ==> !(trim(#[trigger] lines[j]).len() > 0 && is_error_line(trim(lines[j]))),
    ensures
        last_error(lines) == Some(trim(lines[k])),
    decreases lines.len(),
{
    if k < lines.len() - 1 {
        let d = lines.drop_last();
        assert forall|j: int| k < j < d.len() implies !(trim(#[trigger] d[j]).len() > 0 && is_error_line(trim(d[j]))) by {
            assert(d[j] == lines[j]);
        }
        assert(lines[lines.len() - 1] == lines.last());
        lemma_last_error_at(d, k);
        assert(d[k] == lines[k]);
    }
}

proof fn lemma_no_error_line(lines: Seq<Seq<char>>)
    requires
        forall|j: int| 0 <= j < lines.len() ==> !(trim(#[trigger] lines[j]).len() > 0 && is_error_line(trim(lines[j]))),
    ensures
        last_error(lines) is None,
    decreases lines.len(),
{
    if lines.len() > 0 {
        let d = lines.drop_last();
        assert forall|j: int| 0 <= j < d.len() implies !(trim(#[trigger] d[j]).len() > 0 && is_error_line(trim(d[j]))) by {
            assert(d[j] == lines[j]);
        }
        assert(lines[lines.len() - 1] == lines.last());
        lemma_no_error_line(d);
    }
}

/// The reason given for a log is its last error line: whatever non-error
/// lines follow it, the reason is that line, trimmed and cut to 240
/// characters. A log without any error line is explained by its last
/// non-blank line instead.
pub proof fn log_reason_is_last_error_line(log: Seq<char>, k: int)
    requires
        0 <= k < split(log, '\n').len(),
    ensures
        ({
            let lines = split(log, '\n');
            trim(lines[k]).len() > 0 && is_error_line(trim(lines[k]))
                && (forall|j: int| k < j < lines.len() ==> !(trim(#[trigger] lines[j]).len() > 0 && is_error_line(trim(lines[j]))))
                ==> log_reason_spec(log) == Some(truncate_spec(trim(lines[k]), 240))
        }),
        ({
            let lines = split(log, '\n');
            (forall|j: int| 0 <= j < lines.len() ==> !(trim(#[trigger] lines[j]).len() > 0 && is_error_line(trim(lines[j]))))
                && trim(lines[k]).len() > 0
                && (forall|j: int| k < j < lines.len() ==> trim(#[trigger] lines[j]).len() == 0)
                ==> log_reason_spec(log) == Some(truncate_spec(trim(lines[k]), 240))
        }),
{
    let lines = split(log, '\n');
    if trim(lines[k]).len() > 0 && is_error_line(trim(lines[k]))
        && (forall|j: int| k < j < lines.len() ==> !(trim(#[trigger] lines[j]).len() > 0 && is_error_line(trim(lines[j])))) {
        lemma_last_error_at(lines, k);
    }
    if (forall|j: int| 0 <= j < lines.len() ==> !(trim(#[trigger] lines[j]).len() > 0 && is_error_line(trim(lines[j]))))
        && trim(lines[k]).len() > 0
        && (forall|j: int| k < j < lines.len() ==> trim(#[trigger] lines[j]).len() == 0) {
        lemma_no_error_line(lines);
        lemma_last_meaningful_at(lines, k);
    }
}

proof fn lemma_last_meaningful_at(lines: Seq<Seq<char>>, k: int)
    requires
        0 <= k < lines.len(),
        trim(lines[k]).len() > 0,
        forall|j: int| k < j < lines.len() ==> trim(#[trigger] lines[j]).len() == 0,
    ensures
        last_meaningful(lines) == Some(trim(lines[k])),
    decreases lines.len(),
{
    if k < lines.len() - 1 {
        let d = lines.drop_last();
        assert forall|j: int| k < j < d.len() implies trim(#[trigger] d[j]).len() == 0 by {
            assert(d[j] == lines[j]);
        }
        assert(lines[lines.len() - 1] == lines.last());
        lemma_last_meaningful_at(d, k);
        assert(d[k] == lines[k]);
    }
}

proof fn lemma_last_lines_nonblank(lines: Seq<Seq<char>>)
    ensures
        last_error(lines) matches Some(e) ==> e.len() > 0,
        last_meaningful(lines) matches Some(m) ==> m.len() > 0,
    decreases lines.len(),
{
    if lines.len() > 0 {
        lemma_last_lines_nonblank(lines.drop_last());
    }
}

fn error_line(l: &[char]) -> (b: bool)
    ensures
        b == is_error_line(l@),
{
    let low = ascii_lower_chars(l);
    let s = low.as_slice();
    str_contains(s, "error") || str_contains(s, "fatal") || str_contains(s, "cannot")
        || str_contains(s, "permission") || str_contains(s, "administrator") || str_contains(
        s,
        "all tap",
    ) || str_contains(s, "there are no") || str_contains(s, "failed") || str_contains(
        s,
        "exiting due to",
    )
}

/// Distil a concise failure reason from the text of OpenVPN's log, so the UI
/// can show why a connection failed: the last error-like line, or else the
/// last line written, trimmed to 240 characters.
pub fn log_reason(log: &str) -> (r: Option<String>)
    ensures
        match log_reason_spec(log@) {
            Some(t) => r matches Some(s) && s@ == t,
            None => r is None,
        },
{
    let cs = chars_of(log);
    let lines = split_chars(cs.as_slice(), '\n');
    let ghost ls = split(log@, '\n');
    let n = lines.len();
    let mut meaningful: Option<Vec<char>> = None;
    let mut error: Option<Vec<char>> = None;
    assert(ls.take(0) =~= Seq::<Seq<char>>::empty());
    for i in 0..n
        invariant
            n == lines@.len(),
            views(lines@) == ls,
            match last_meaningful(ls.take(i as int)) {
                Some(m) => meaningful matches Some(v) && v@ == m,
                None => meaningful is None,
            },
            match last_error(ls.take(i as int)) {
                Some(m) => error matches Some(v) && v@ == m,
                None => error is None,
            },
    {
        let ghost t = ls.take(i + 1);
        assert(t.drop_last() == ls.take(i as int));
        assert(t.last() == lines@[i as int]@);
        let line = trim_chars(lines[i].as_slice());
        if line.len() > 0 {
            if error_line(line.as_slice()) {
                error = Some(crate::text::slice_chars(line.as_slice(), 0, line.len()));
                assert(line@.subrange(0, line@.len() as int) == line@);
            }
            meaningful = Some(line);
        }
    }
    assert(ls.take(n as int) == ls);
    let pick = match error {
        Some(e) => e,
        None => match meaningful {
            Some(m) => m,
            None => return None,
        },
    };
    Some(truncate_chars(string_from_chars(pick.as_slice()).as_str(), 240))
}

} // verus!
