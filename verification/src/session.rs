//! The rules a terminal session and the session registry apply to requests;
//! the PTY, its workers and the registry's locks live outside the library.
use vstd::prelude::*;
use crate::{SessionId, TerminalSize, MAX_INPUT_BYTES, valid_id_text};

verus! {

/// Environment variables through which a hook reports; a launched shell
/// never inherits them from the application's own environment.
pub const HOOK_ENVIRONMENT: [&'static str; 6] = [
    "VINTAGE_HOOK_ENV",
    "VINTAGE_HOOK_PORT",
    "VINTAGE_HOOK_TOKEN",
    "VINTAGE_PANE_ID",
    "VINTAGE_GENERATION",
    "VINTAGE_AGENT",
];

pub open spec fn supported_scrollback(lines: usize) -> bool {
    crate::settings::SCROLLBACK@.contains(lines)
}

/// Checks a scrollback capacity.
pub fn check_scrollback(lines: usize) -> (r: Result<(), &'static str>)
    ensures
        r is Ok <==> supported_scrollback(lines),
        r matches Err(e) ==> e@ == "Unsupported scrollback capacity"@,
{
    let known = lines == 1000 || lines == 2500 || lines == 5000 || lines == 10000;
    proof {
        let s = crate::settings::SCROLLBACK@;
        assert(s =~= seq![1000usize, 2500, 5000, 10000]);
        if s.contains(lines) {
            let k = choose|k: int| 0 <= k < 4 && s[k] == lines;
            assert(known);
        }
        if known {
            if lines == 1000 {
                assert(s[0] == lines);
            } else if lines == 2500 {
                assert(s[1] == lines);
            } else if lines == 5000 {
                assert(s[2] == lines);
            } else {
                assert(s[3] == lines);
            }
        }
    }
    if known {
        Ok(())
    } else {
        Err("Unsupported scrollback capacity")
    }
}

/// Why a session cannot start with these arguments, if it cannot: the
/// scrollback, the identifier and the size are checked in that order.
pub open spec fn start_error(id: SessionId, size: TerminalSize, scrollback: usize) -> Option<Seq<char>> {
    if !supported_scrollback(scrollback) {
        Some("Unsupported scrollback capacity"@)
    } else if !(valid_id_text(id.terminal@) && valid_id_text(id.pane@) && id.generation != 0) {
        Some("Invalid terminal, pane or generation"@)
    } else if !TerminalSize::valid_dimensions(size.columns, size.rows) {
        Some("Terminal size must be within 2..500 columns and 2..500 rows"@)
    } else {
        None
    }
}

/// Checks the arguments of a session start before any native resource is
/// created.
pub fn check_start(id: &SessionId, size: TerminalSize, scrollback: usize) -> (r: Result<(), &'static str>)
    ensures
        match r {
            Ok(()) => start_error(*id, size, scrollback) is None,
            Err(e) => start_error(*id, size, scrollback) == Some(e@),
        },
{
    check_scrollback(scrollback)?;
    match SessionId::new(id.terminal.as_str(), id.pane.as_str(), id.generation) {
        Err(e) => {
            return Err(e);
        },
        Ok(_) => {},
    }
    match TerminalSize::new(size.columns, size.rows) {
        Err(e) => Err(e),
        Ok(_) => Ok(()),
    }
}

/// Why input for session `id` is refused by the session `owner`, if it is.
pub open spec fn write_error(owner: SessionId, id: SessionId, len: usize, exited: bool) -> Option<Seq<char>> {
    if owner.view() != id.view() {
        Some("Stale terminal session"@)
    } else if len > MAX_INPUT_BYTES {
        Some("Terminal input exceeds the size limit"@)
    } else if exited {
        Some("The terminal session has ended"@)
    } else {
        None
    }
}

/// Checks input for a session before it is queued.
pub fn check_write(owner: &SessionId, id: &SessionId, len: usize, exited: bool) -> (r: Result<(), &'static str>)
    ensures
        match r {
            Ok(()) => write_error(*owner, *id, len, exited) is None,
            Err(e) => write_error(*owner, *id, len, exited) == Some(e@),
        },
{
    if !owner.same(id) {
        return Err("Stale terminal session");
    }
    if len > MAX_INPUT_BYTES {
        return Err("Terminal input exceeds the size limit");
    }
    if exited {
        return Err("The terminal session has ended");
    }
    Ok(())
}

/// Checks a resize before it is queued.
pub fn check_resize(size: TerminalSize, exited: bool) -> (r: Result<(), &'static str>)
    ensures
        r is Ok <==> TerminalSize::valid_dimensions(size.columns, size.rows) && !exited,
        r matches Err(e) ==> (!TerminalSize::valid_dimensions(size.columns, size.rows)
            && e@ == "Terminal size must be within 2..500 columns and 2..500 rows"@) || (TerminalSize::valid_dimensions(
            size.columns,
            size.rows,
        ) && exited && e@ == "The terminal session has ended"@),
{
    match TerminalSize::new(size.columns, size.rows) {
        Err(e) => {
            return Err(e);
        },
        Ok(_) => {},
    }
    if exited {
        return Err("The terminal session has ended");
    }
    Ok(())
}

/// Whether the registry takes a new session for a pane: not after
/// shutdown, and not past the pane limit unless the pane already has one.
pub fn accept_session(stopped: bool, known: bool, count: usize) -> (r: Result<(), &'static str>)
    ensures
        r is Ok <==> !stopped && (known || count < crate::workspace::MAX_PANES),
        r matches Err(e) ==> e@ == "Terminal service is stopped or at capacity"@,
{
    if stopped || (!known && count >= crate::workspace::MAX_PANES) {
        return Err("Terminal service is stopped or at capacity");
    }
    Ok(())
}

/// The session identifier of a pane's terminal: `terminal-N`, `pane-N`,
/// first generation.
pub fn pane_session_id(pane: u64) -> (r: SessionId)
    ensures
        r.view() == ("terminal-"@ + crate::text::decimal_chars(pane as nat), "pane-"@
            + crate::text::decimal_chars(pane as nat), 1u64),
{
    let mut terminal = "terminal-".to_owned();
    crate::text::push_decimal_str(&mut terminal, pane);
    let mut pane_name = "pane-".to_owned();
    crate::text::push_decimal_str(&mut pane_name, pane);
    SessionId { terminal, pane: pane_name, generation: 1 }
}

pub open spec fn env_view(v: Seq<(String, String)>) -> Seq<(Seq<char>, Seq<char>)> {
    v.map_values(|p: (String, String)| (p.0@, p.1@))
}

/// The environment a launched shell receives beyond its own: the terminal
/// type and color support, the shell's variables, then the hook variables.
pub fn launch_env(shell_env: Vec<(String, String)>, hook_env: Vec<(String, String)>) -> (r: Vec<(String, String)>)
    ensures
        env_view(r@) == seq![("TERM"@, "xterm-256color"@), ("COLORTERM"@, "truecolor"@)] + env_view(shell_env@)
            + env_view(hook_env@),
{
    let mut out: Vec<(String, String)> = Vec::new();
    out.push(("TERM".to_owned(), "xterm-256color".to_owned()));
    out.push(("COLORTERM".to_owned(), "truecolor".to_owned()));
    let ghost head = env_view(out@);
    let mut shell_env = shell_env;
    let mut hook_env = hook_env;
    let ghost a = env_view(shell_env@);
    let ghost b = env_view(hook_env@);
    out.append(&mut shell_env);
    out.append(&mut hook_env);
    proof {
        assert(env_view(out@) =~= head + a + b);
        assert(head =~= seq![("TERM"@, "xterm-256color"@), ("COLORTERM"@, "truecolor"@)]);
    }
    out
}

} // verus!
