//! Authenticated loopback reports from managed agent hooks: the connection
//! data handed to a pane's child process, and the checks a report passes
//! before it reaches the interface. Sockets and threads live outside the
//! library.
use vstd::prelude::*;
use crate::text::{chars_of, decimal_chars, push_decimal_str, str_eq, utf8_len};

verus! {

/// Largest report accepted, in bytes.
pub const MAX_REPORT_BYTES: usize = 16 * 1024;

#[derive(Clone, Debug, PartialEq, Eq)]
pub struct HookActivity {
    pub pane: u64,
    pub generation: u64,
    pub agent: Option<String>,
    pub session_id: Option<String>,
    pub state: Option<String>,
}

/// A report as sent by a hook, before any check.
#[derive(Clone, Debug)]
pub struct HookReport {
    pub pane_id: String,
    pub generation: u64,
    pub agent: String,
    pub state: Option<String>,
    pub session_id: Option<String>,
    pub auth_token: Option<String>,
}

/// A lowercase hexadecimal digit.
pub open spec fn hex_char(v: int) -> char {
    if v < 10 {
        (48 + v) as char
    } else {
        (87 + v) as char
    }
}

/// Two lowercase hexadecimal digits per byte.
pub open spec fn hex_text(bytes: Seq<u8>) -> Seq<char>
    decreases bytes.len(),
{
    if bytes.len() == 0 {
        Seq::empty()
    } else {
        hex_text(bytes.drop_last()) + seq![
            hex_char(bytes.last() as int / 16),
            hex_char(bytes.last() as int % 16),
        ]
    }
}

fn hex_digit_char(v: u8) -> (r: char)
    requires
        v < 16,
    ensures
        r == hex_char(v as int),
{
    if v < 10 {
        (48 + v) as char
    } else {
        (87 + v) as char
    }
}

/// The token as lowercase hexadecimal text.
pub fn token_hex(token: &[u8]) -> (r: String)
    ensures
        r@ == hex_text(token@),
{
    let mut out = String::new();
    let mut i: usize = 0;
    proof {
        assert(token@.take(0) =~= Seq::<u8>::empty());
    }
    while i < token.len()
        invariant
            i <= token@.len(),
            out@ == hex_text(token@.take(i as int)),
        decreases token@.len() - i,
    {
        let b = token[i];
        crate::text::push_char(&mut out, hex_digit_char(b / 16));
        crate::text::push_char(&mut out, hex_digit_char(b % 16));
        proof {
            assert(token@.take(i + 1).drop_last() =~= token@.take(i as int));
            assert(token@.take(i + 1).last() == b);
        }
        i += 1;
        proof {
            assert(out@ =~= hex_text(token@.take(i as int)));
        }
    }
    proof {
        assert(token@.take(token@.len() as int) =~= token@);
    }
    out
}

pub open spec fn pair_view(p: (String, String)) -> (Seq<char>, Seq<char>) {
    (p.0@, p.1@)
}

/// The environment a pane's child process receives to report to the hook
/// server: its port, its token, and the pane, generation and agent.
pub open spec fn hook_environment(port: u16, token: Seq<u8>, pane: u64, generation: u64, agent: Seq<char>) -> Seq<
    (Seq<char>, Seq<char>),
> {
    seq![
        ("VINTAGE_HOOK_ENV"@, "1"@),
        ("VINTAGE_HOOK_PORT"@, decimal_chars(port as nat)),
        ("VINTAGE_HOOK_TOKEN"@, hex_text(token)),
        ("VINTAGE_PANE_ID"@, "pane-"@ + decimal_chars(pane as nat)),
        ("VINTAGE_GENERATION"@, decimal_chars(generation as nat)),
        ("VINTAGE_AGENT"@, agent),
    ]
}

fn decimal_string(n: u64) -> (r: String)
    ensures
        r@ == decimal_chars(n as nat),
{
    let mut s = String::new();
    push_decimal_str(&mut s, n);
    proof {
        assert(s@ =~= decimal_chars(n as nat));
    }
    s
}

/// The child environment for a pane, given the server's port and token.
pub fn child_env(port: u16, token: &[u8], pane: u64, generation: u64, agent: &str) -> (r: Vec<(String, String)>)
    ensures
        r@.map_values(|p: (String, String)| pair_view(p)) == hook_environment(port, token@, pane, generation, agent@),
{
    let mut pane_id = "pane-".to_owned();
    push_decimal_str(&mut pane_id, pane);
    let mut out: Vec<(String, String)> = Vec::new();
    out.push(("VINTAGE_HOOK_ENV".to_owned(), "1".to_owned()));
    out.push(("VINTAGE_HOOK_PORT".to_owned(), decimal_string(port as u64)));
    out.push(("VINTAGE_HOOK_TOKEN".to_owned(), token_hex(token)));
    out.push(("VINTAGE_PANE_ID".to_owned(), pane_id));
    out.push(("VINTAGE_GENERATION".to_owned(), decimal_string(generation)));
    out.push(("VINTAGE_AGENT".to_owned(), agent.to_owned()));
    proof {
        assert(out@.map_values(|p: (String, String)| pair_view(p)) =~= hook_environment(
            port,
            token@,
            pane,
            generation,
            agent@,
        ));
    }
    out
}

/// Whether every character is an ASCII decimal digit.
pub open spec fn all_digits(s: Seq<char>) -> bool {
    forall|i: int| 0 <= i < s.len() ==> '0' <= #[trigger] s[i] <= '9'
}

/// The number that decimal digits denote.
pub open spec fn digits_value(s: Seq<char>) -> nat
    decreases s.len(),
{
    if s.len() == 0 {
        0
    } else {
        digits_value(s.drop_last()) * 10 + ((s.last() as u32) - 48) as nat
    }
}

/// `u64::from_str`: an optional `+` and at least one decimal digit, with a
/// value that fits.
pub open spec fn parse_u64(s: Seq<char>) -> Option<u64> {
    let t = if s.len() > 0 && s[0] == '+' {
        s.drop_first()
    } else {
        s
    };
    if t.len() == 0 || !all_digits(t) || digits_value(t) > u64::MAX {
        None
    } else {
        Some(digits_value(t) as u64)
    }
}

proof fn lemma_digits_grow(s: Seq<char>, k: int)
    requires
        0 <= k <= s.len(),
        all_digits(s),
    ensures
        digits_value(s.take(k)) <= digits_value(s),
    decreases s.len() - k,
{
    if k < s.len() {
        lemma_digits_grow(s, k + 1);
        assert(s.take(k + 1).drop_last() =~= s.take(k));
        assert(s.take(k + 1).last() == s[k]);
    } else {
        assert(s.take(k) =~= s);
    }
}

fn parse_decimal(s: &[char]) -> (r: Option<u64>)
    ensures
        r == parse_u64(s@),
{
    let mut start: usize = 0;
    if s.len() > 0 && s[0] == '+' {
        start = 1;
    }
    let ghost t = if s@.len() > 0 && s@[0] == '+' {
        s@.drop_first()
    } else {
        s@
    };
    proof {
        assert(t =~= s@.skip(start as int));
    }
    if start == s.len() {
        return None;
    }
    let mut value: u64 = 0;
    let mut i: usize = start;
    proof {
        assert(t.take(0) =~= Seq::<char>::empty());
    }
    while i < s.len()
        invariant
            start <= i <= s@.len(),
            t == s@.skip(start as int),
            t == (if s@.len() > 0 && s@[0] == '+' {
                s@.drop_first()
            } else {
                s@
            }),
            t.len() > 0,
            value as nat == digits_value(t.take(i - start)),
            all_digits(t.take(i - start)),
        decreases s@.len() - i,
    {
        let c = s[i];
        proof {
            assert(t[i - start] == c);
        }
        if !('0' <= c && c <= '9') {
            proof {
                assert(!all_digits(t));
            }
            return None;
        }
        proof {
            assert(t.take(i - start + 1).drop_last() =~= t.take(i - start));
            assert(t.take(i - start + 1).last() == c);
        }
        let d = (c as u32 - 48) as u64;
        let next = match value.checked_mul(10) {
            Some(m) => m.checked_add(d),
            None => None,
        };
        match next {
            Some(v) => {
                value = v;
            },
            None => {
                proof {
                    assert forall|k: int| 0 <= k < t.take(i - start + 1).len() implies '0' <= #[trigger] t.take(
                        i - start + 1,
                    )[k] <= '9' by {
                        if k < i - start {
                            assert(t.take(i - start + 1)[k] == t.take(i - start)[k]);
                        }
                    }
                    if all_digits(t) {
                        lemma_digits_grow(t, i - start + 1);
                    }
                }
                return None;
            },
        }
        i += 1;
        proof {
            assert forall|k: int| 0 <= k < t.take(i - start).len() implies '0' <= #[trigger] t.take(i - start)[k]
                <= '9' by {
                if k < i - start - 1 {
                    assert(t.take(i - start)[k] == t.take(i - start - 1)[k]);
                }
            }
        }
    }
    proof {
        assert(t.take(i - start) =~= t);
    }
    Some(value)
}

/// The pane a `pane-<number>` reference names.
pub open spec fn pane_reference(id: Seq<char>) -> Option<u64> {
    if id.len() >= 5 && id.take(5) == "pane-"@ {
        parse_u64(id.skip(5))
    } else {
        None
    }
}

/// States a hook may report.
pub open spec fn known_state(s: Seq<char>) -> bool {
    s == "working"@ || s == "blocked"@ || s == "idle"@ || s == "released"@ || s == "unknown"@
}

pub open spec fn opt_len_over(o: Option<String>, n: nat) -> bool {
    match o {
        Some(s) => utf8_len(s@) > n,
        None => false,
    }
}

/// Why a report is refused, if it is: a wrong token, a malformed pane
/// reference, an inactive pane or bad fields, or an unknown state, checked
/// in that order.
pub open spec fn report_error(r: HookReport, expected: Seq<char>, active: Seq<u64>) -> Option<&'static str> {
    if !(r.auth_token matches Some(t) && t@ == expected) {
        Some("Hook IPC report has an invalid token.")
    } else {
        match pane_reference(r.pane_id@) {
            None => Some("Hook IPC report has an invalid pane reference."),
            Some(pane) => if !active.contains(pane) || r.generation != 1 || utf8_len(r.agent@) > 128
                || opt_len_over(r.session_id, 512) {
                Some("Hook IPC report has invalid fields.")
            } else if r.state matches Some(s) && !known_state(s@) {
                Some("Hook IPC report has an invalid state.")
            } else {
                None
            },
        }
    }
}

/// The activity an accepted report announces.
pub open spec fn report_activity(r: HookReport, a: HookActivity) -> bool {
    &&& Some(a.pane) == pane_reference(r.pane_id@)
    &&& a.generation == r.generation
    &&& (if r.agent@.len() == 0 {
        a.agent is None
    } else {
        a.agent matches Some(x) && x@ == r.agent@
    })
    &&& a.session_id == r.session_id
    &&& a.state == r.state
}

/// Checks the length of a report read from a connection.
pub fn check_report_size(read: usize) -> (r: Result<(), &'static str>)
    ensures
        r is Ok <==> 0 < read <= MAX_REPORT_BYTES,
        r matches Err(e) ==> e@ == "Hook IPC report exceeds the message limit."@,
{
    if read == 0 || read > MAX_REPORT_BYTES {
        return Err("Hook IPC report exceeds the message limit.");
    }
    Ok(())
}

fn contains_pane(active: &[u64], pane: u64) -> (r: bool)
    ensures
        r == active@.contains(pane),
{
    let mut i: usize = 0;
    while i < active.len()
        invariant
            i <= active@.len(),
            forall|k: int| 0 <= k < i ==> active@[k] != pane,
        decreases active@.len() - i,
    {
        if active[i] == pane {
            proof {
                assert(active@[i as int] == pane);
            }
            return true;
        }
        i += 1;
    }
    false
}

/// Accepts a report that carries the expected token and names an active
/// pane with valid fields, and gives the activity it announces.
pub fn accept_report(report: HookReport, expected: &str, active: &[u64]) -> (r: Result<HookActivity, &'static str>)
    ensures
        match r {
            Ok(a) => report_error(report, expected@, active@) is None && report_activity(report, a),
            Err(e) => report_error(report, expected@, active@) == Some(e),
        },
{
    let token_ok = match &report.auth_token {
        Some(t) => str_eq(t.as_str(), expected),
        None => false,
    };
    if !token_ok {
        return Err("Hook IPC report has an invalid token.");
    }
    let id = chars_of(report.pane_id.as_str());
    let prefix = chars_of("pane-");
    proof {
        reveal_strlit("pane-");
    }
    let mut has_prefix = id.len() >= 5;
    let mut k: usize = 0;
    while has_prefix && k < 5
        invariant
            k <= 5,
            prefix@ == "pane-"@,
            prefix@.len() == 5,
            has_prefix ==> id@.len() >= 5 && forall|j: int| 0 <= j < k ==> id@[j] == prefix@[j],
            !has_prefix ==> !(id@.len() >= 5 && id@.take(5) == "pane-"@),
        decreases 5 - k,
    {
        if id[k] != prefix[k] {
            proof {
                assert(id@.take(5)[k as int] != prefix@[k as int]);
            }
            has_prefix = false;
        }
        k += 1;
    }
    if !has_prefix {
        return Err("Hook IPC report has an invalid pane reference.");
    }
    proof {
        assert(id@.take(5) =~= "pane-"@);
    }
    let mut digits: Vec<char> = Vec::new();
    let mut j: usize = 5;
    while j < id.len()
        invariant
            5 <= j <= id@.len(),
            digits@ == id@.subrange(5, j as int),
        decreases id@.len() - j,
    {
        digits.push(id[j]);
        j += 1;
        proof {
            assert(digits@ =~= id@.subrange(5, j as int));
        }
    }
    proof {
        assert(digits@ =~= id@.skip(5));
    }
    let pane = match parse_decimal(&digits) {
        Some(p) => p,
        None => {
            return Err("Hook IPC report has an invalid pane reference.");
        },
    };
    let session_long = match &report.session_id {
        Some(s) => s.as_str().as_bytes().len() > 512,
        None => false,
    };
    if !contains_pane(active, pane) || report.generation != 1 || report.agent.as_str().as_bytes().len() > 128
        || session_long {
        return Err("Hook IPC report has invalid fields.");
    }
    let state_ok = match &report.state {
        None => true,
        Some(s) => {
            let s = s.as_str();
            str_eq(s, "working") || str_eq(s, "blocked") || str_eq(s, "idle") || str_eq(s, "released") || str_eq(
                s,
                "unknown",
            )
        },
    };
    if !state_ok {
        return Err("Hook IPC report has an invalid state.");
    }
    let agent = if report.agent.as_str().is_empty() {
        None
    } else {
        Some(report.agent)
    };
    Ok(HookActivity { pane, generation: report.generation, agent, session_id: report.session_id, state: report.state })
}

/// The token text has two lowercase hexadecimal digits per token byte, so a
/// 256-bit token travels as 64 characters.
pub proof fn law_token_text_length(token: Seq<u8>)
    ensures
        hex_text(token).len() == 2 * token.len(),
        forall|i: int|
            0 <= i < hex_text(token).len() ==> ('0' <= #[trigger] hex_text(token)[i] <= '9') || ('a' <= hex_text(
                token,
            )[i] <= 'f'),
    decreases token.len(),
{
    if token.len() > 0 {
        law_token_text_length(token.drop_last());
        let prev = hex_text(token.drop_last());
        let b = token.last();
        assert forall|i: int| 0 <= i < hex_text(token).len() implies ('0' <= #[trigger] hex_text(token)[i] <= '9')
            || ('a' <= hex_text(token)[i] <= 'f') by {
            if i < prev.len() {
                assert(hex_text(token)[i] == prev[i]);
            }
        }
    }
}

} // verus!
