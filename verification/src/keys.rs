//! Byte encodings of non-text keys and pasted text for the PTY.
use vstd::prelude::*;
use vstd::string::*;
use crate::text::{decimal, push_decimal, str_eq};
use crate::MAX_INPUT_BYTES;

verus! {

#[derive(Clone, Copy)]
pub struct Modifiers {
    pub control: bool,
    pub alt: bool,
    pub shift: bool,
}

impl Default for Modifiers {
    fn default() -> (r: Self)
        ensures
            !r.control && !r.alt && !r.shift,
    {
        Modifiers { control: false, alt: false, shift: false }
    }
}

/// The xterm modifier parameter: 1 + shift + 2·alt + 4·control.
pub open spec fn modifier_code(m: Modifiers) -> nat {
    1 + (if m.shift { 1nat } else { 0 }) + (if m.alt { 2nat } else { 0 }) + (if m.control { 4nat } else { 0 })
}

/// Final letter of the cursor and home/end keys.
pub open spec fn cursor_letter(key: Seq<char>) -> Option<u8> {
    if key == "up"@ {
        Some(65u8)
    } else if key == "down"@ {
        Some(66u8)
    } else if key == "right"@ {
        Some(67u8)
    } else if key == "left"@ {
        Some(68u8)
    } else if key == "home"@ {
        Some(72u8)
    } else if key == "end"@ {
        Some(70u8)
    } else {
        None
    }
}

/// Parameter of the `CSI n ~` editing and function keys.
pub open spec fn tilde_number(key: Seq<char>) -> Option<u8> {
    if key == "insert"@ {
        Some(2u8)
    } else if key == "delete"@ {
        Some(3u8)
    } else if key == "pageup"@ {
        Some(5u8)
    } else if key == "pagedown"@ {
        Some(6u8)
    } else if key == "f5"@ {
        Some(15u8)
    } else if key == "f6"@ {
        Some(17u8)
    } else if key == "f7"@ {
        Some(18u8)
    } else if key == "f8"@ {
        Some(19u8)
    } else if key == "f9"@ {
        Some(20u8)
    } else if key == "f10"@ {
        Some(21u8)
    } else if key == "f11"@ {
        Some(23u8)
    } else if key == "f12"@ {
        Some(24u8)
    } else {
        None
    }
}

/// Final letter of F1..F4.
pub open spec fn function_letter(key: Seq<char>) -> Option<u8> {
    if key == "f1"@ {
        Some(80u8)
    } else if key == "f2"@ {
        Some(81u8)
    } else if key == "f3"@ {
        Some(82u8)
    } else if key == "f4"@ {
        Some(83u8)
    } else {
        None
    }
}

pub open spec fn ascii_upper(b: u8) -> u8 {
    if 97 <= b <= 122 {
        (b - 32) as u8
    } else {
        b
    }
}

/// Bytes of the remaining named and control keys before any Alt prefix.
pub open spec fn plain_key(key: &str, m: Modifiers) -> Option<Seq<u8>> {
    let k = key@;
    let bytes = key.spec_bytes();
    if k == "enter"@ {
        Some(seq![13u8])
    } else if k == "tab"@ && m.shift {
        Some(seq![27u8, 91, 90])
    } else if k == "tab"@ {
        Some(seq![9u8])
    } else if k == "backspace"@ {
        Some(seq![0x7fu8])
    } else if k == "escape"@ {
        Some(seq![27u8])
    } else if k == "space"@ && m.control {
        Some(seq![0u8])
    } else if m.control && bytes.len() == 1 {
        let c = ascii_upper(bytes[0]);
        if 64 <= c <= 95 {
            Some(seq![c & 0x1f])
        } else if c == 63 {
            Some(seq![0x7fu8])
        } else {
            None
        }
    } else if m.alt && !m.control && k.len() == 1 {
        Some(bytes)
    } else {
        None
    }
}

/// The xterm byte sequence of a non-text key, or `None` for keys that are
/// delivered as text.
pub open spec fn key_bytes(key: &str, m: Modifiers, application_cursor: bool) -> Option<Seq<u8>> {
    let code = modifier_code(m);
    if let Some(s) = cursor_letter(key@) {
        Some(
            if code != 1 {
                seq![27u8, 91, 49, 59] + decimal(code) + seq![s]
            } else if application_cursor {
                seq![27u8, 79, s]
            } else {
                seq![27u8, 91, s]
            },
        )
    } else if let Some(n) = tilde_number(key@) {
        Some(
            if code == 1 {
                seq![27u8, 91] + decimal(n as nat) + seq![126u8]
            } else {
                seq![27u8, 91] + decimal(n as nat) + seq![59u8] + decimal(code) + seq![126u8]
            },
        )
    } else if let Some(s) = function_letter(key@) {
        Some(
            if code == 1 {
                seq![27u8, 79, s]
            } else {
                seq![27u8, 91, 49, 59] + decimal(code) + seq![s]
            },
        )
    } else {
        match plain_key(key, m) {
            Some(b) => Some(
                if m.alt {
                    seq![27u8] + b
                } else {
                    b
                },
            ),
            None => None,
        }
    }
}

fn cursor_letter_of(key: &str) -> (r: Option<u8>)
    ensures
        r == cursor_letter(key@),
{
    if str_eq(key, "up") {
        Some(65)
    } else if str_eq(key, "down") {
        Some(66)
    } else if str_eq(key, "right") {
        Some(67)
    } else if str_eq(key, "left") {
        Some(68)
    } else if str_eq(key, "home") {
        Some(72)
    } else if str_eq(key, "end") {
        Some(70)
    } else {
        None
    }
}

fn tilde_number_of(key: &str) -> (r: Option<u8>)
    ensures
        r == tilde_number(key@),
{
    if str_eq(key, "insert") {
        Some(2)
    } else if str_eq(key, "delete") {
        Some(3)
    } else if str_eq(key, "pageup") {
        Some(5)
    } else if str_eq(key, "pagedown") {
        Some(6)
    } else if str_eq(key, "f5") {
        Some(15)
    } else if str_eq(key, "f6") {
        Some(17)
    } else if str_eq(key, "f7") {
        Some(18)
    } else if str_eq(key, "f8") {
        Some(19)
    } else if str_eq(key, "f9") {
        Some(20)
    } else if str_eq(key, "f10") {
        Some(21)
    } else if str_eq(key, "f11") {
        Some(23)
    } else if str_eq(key, "f12") {
        Some(24)
    } else {
        None
    }
}

fn function_letter_of(key: &str) -> (r: Option<u8>)
    ensures
        r == function_letter(key@),
{
    if str_eq(key, "f1") {
        Some(80)
    } else if str_eq(key, "f2") {
        Some(81)
    } else if str_eq(key, "f3") {
        Some(82)
    } else if str_eq(key, "f4") {
        Some(83)
    } else {
        None
    }
}

fn plain_key_of(key: &str, m: Modifiers) -> (r: Option<Vec<u8>>)
    ensures
        match r {
            Some(v) => plain_key(key, m) == Some(v@),
            None => plain_key(key, m) is None,
        },
{
    if str_eq(key, "enter") {
        Some(vec![13u8])
    } else if str_eq(key, "tab") && m.shift {
        Some(vec![27u8, 91, 90])
    } else if str_eq(key, "tab") {
        Some(vec![9u8])
    } else if str_eq(key, "backspace") {
        Some(vec![0x7fu8])
    } else if str_eq(key, "escape") {
        Some(vec![27u8])
    } else if str_eq(key, "space") && m.control {
        Some(vec![0u8])
    } else if m.control && key.as_bytes().len() == 1 {
        let bytes = key.as_bytes();
        let b = bytes[0];
        let c = if 97 <= b && b <= 122 { b - 32 } else { b };
        if 64 <= c && c <= 95 {
            Some(vec![c & 0x1f])
        } else if c == 63 {
            Some(vec![0x7fu8])
        } else {
            None
        }
    } else if m.alt && !m.control && crate::text::chars_of(key).len() == 1 {
        let bytes = key.as_bytes();
        let mut v: Vec<u8> = Vec::new();
        let mut i: usize = 0;
        while i < bytes.len()
            invariant
                i <= bytes@.len(),
                v@ == bytes@.take(i as int),
            decreases bytes@.len() - i,
        {
            v.push(bytes[i]);
            i += 1;
            proof {
                assert(v@ =~= bytes@.take(i as int));
            }
        }
        proof {
            assert(v@ =~= bytes@);
        }
        Some(v)
    } else {
        None
    }
}

/// Encode non-text keys. Text and IME commits are delivered separately.
pub fn encode_key(key: &str, modifiers: Modifiers, application_cursor: bool) -> (r: Option<Vec<u8>>)
    ensures
        match r {
            Some(v) => key_bytes(key, modifiers, application_cursor) == Some(v@),
            None => key_bytes(key, modifiers, application_cursor) is None,
        },
{
    let modifier: u64 = 1 + (if modifiers.shift { 1u64 } else { 0 }) + (if modifiers.alt { 2u64 } else { 0 }) + (
    if modifiers.control { 4u64 } else { 0 });
    let ghost code = modifier_code(modifiers);
    assert(modifier as nat == code);
    if let Some(suffix) = cursor_letter_of(key) {
        let mut out: Vec<u8> = Vec::new();
        if modifier != 1 {
            out.push(27);
            out.push(91);
            out.push(49);
            out.push(59);
            push_decimal(&mut out, modifier);
            out.push(suffix);
            assert(out@ =~= seq![27u8, 91, 49, 59] + decimal(code) + seq![suffix]);
        } else if application_cursor {
            out.push(27);
            out.push(79);
            out.push(suffix);
            assert(out@ =~= seq![27u8, 79, suffix]);
        } else {
            out.push(27);
            out.push(91);
            out.push(suffix);
            assert(out@ =~= seq![27u8, 91, suffix]);
        }
        return Some(out);
    }
    if let Some(number) = tilde_number_of(key) {
        let mut out: Vec<u8> = Vec::new();
        out.push(27);
        out.push(91);
        push_decimal(&mut out, number as u64);
        if modifier == 1 {
            out.push(126);
            assert(out@ =~= seq![27u8, 91] + decimal(number as nat) + seq![126u8]);
        } else {
            out.push(59);
            let ghost mid = out@;
            push_decimal(&mut out, modifier);
            out.push(126);
            assert(out@ =~= seq![27u8, 91] + decimal(number as nat) + seq![59u8] + decimal(code)
                + seq![126u8]);
        }
        return Some(out);
    }
    if let Some(suffix) = function_letter_of(key) {
        let mut out: Vec<u8> = Vec::new();
        if modifier == 1 {
            out.push(27);
            out.push(79);
            out.push(suffix);
            assert(out@ =~= seq![27u8, 79, suffix]);
        } else {
            out.push(27);
            out.push(91);
            out.push(49);
            out.push(59);
            push_decimal(&mut out, modifier);
            out.push(suffix);
            assert(out@ =~= seq![27u8, 91, 49, 59] + decimal(code) + seq![suffix]);
        }
        return Some(out);
    }
    match plain_key_of(key, modifiers) {
        Some(bytes) => {
            if modifiers.alt {
                let mut out: Vec<u8> = Vec::new();
                out.push(27);
                let mut i: usize = 0;
                while i < bytes.len()
                    invariant
                        i <= bytes@.len(),
                        out@ == seq![27u8] + bytes@.take(i as int),
                    decreases bytes@.len() - i,
                {
                    out.push(bytes[i]);
                    i += 1;
                    proof {
                        assert(out@ =~= seq![27u8] + bytes@.take(i as int));
                    }
                }
                assert(bytes@.take(bytes@.len() as int) =~= bytes@);
                Some(out)
            } else {
                Some(bytes)
            }
        },
        None => None,
    }
}

/// Remove ESC bytes, which could otherwise end a bracketed paste early.
pub open spec fn strip_escape(s: Seq<u8>) -> Seq<u8> {
    s.filter(|b: u8| b != 27)
}

/// Replace each CRLF pair, scanning left to right, with a single LF.
pub open spec fn crlf_to_lf(s: Seq<u8>) -> Seq<u8>
    decreases s.len(),
{
    if s.len() == 0 {
        s
    } else if s.len() >= 2 && s[0] == 13 && s[1] == 10 {
        seq![10u8] + crlf_to_lf(s.skip(2))
    } else {
        seq![s[0]] + crlf_to_lf(s.skip(1))
    }
}

/// Replace every LF with CR, the byte a terminal's Enter key sends.
pub open spec fn lf_to_cr(s: Seq<u8>) -> Seq<u8> {
    s.map_values(|b: u8| if b == 10 { 13u8 } else { b })
}

/// The paste payload: normalized text, wrapped in bracketed-paste markers
/// when the application asked for them.
pub open spec fn paste_bytes(text: Seq<u8>, bracketed: bool) -> Seq<u8> {
    let body = lf_to_cr(crlf_to_lf(strip_escape(text)));
    if bracketed {
        seq![27u8, 91, 50, 48, 48, 126] + body + seq![27u8, 91, 50, 48, 49, 126]
    } else {
        body
    }
}

fn strip_escape_bytes(s: &[u8]) -> (r: Vec<u8>)
    ensures
        r@ == strip_escape(s@),
{
    let mut out: Vec<u8> = Vec::new();
    let mut i: usize = 0;
    while i < s.len()
        invariant
            i <= s@.len(),
            out@ == strip_escape(s@.take(i as int)),
        decreases s@.len() - i,
    {
        proof {
            reveal_with_fuel(Seq::<_>::filter, 1);
            assert(s@.take(i + 1).drop_last() =~= s@.take(i as int));
        }
        if s[i] != 27 {
            out.push(s[i]);
        }
        i += 1;
    }
    assert(s@.take(s@.len() as int) =~= s@);
    out
}

fn crlf_to_lf_bytes(s: &Vec<u8>) -> (r: Vec<u8>)
    ensures
        r@ == crlf_to_lf(s@),
{
    let mut out: Vec<u8> = Vec::new();
    let mut i: usize = 0;
    assert(s@.skip(0) =~= s@);
    assert(out@ + crlf_to_lf(s@) =~= crlf_to_lf(s@));
    while i < s.len()
        invariant
            i <= s@.len(),
            crlf_to_lf(s@) == out@ + crlf_to_lf(s@.skip(i as int)),
        decreases s@.len() - i,
    {
        let ghost rest = s@.skip(i as int);
        if i + 1 < s.len() && s[i] == 13 && s[i + 1] == 10 {
            out.push(10);
            proof {
                assert(rest.skip(2) =~= s@.skip(i + 2));
            }
            i += 2;
        } else {
            out.push(s[i]);
            proof {
                assert(rest.skip(1) =~= s@.skip(i + 1));
            }
            i += 1;
        }
        proof {
            assert(crlf_to_lf(s@) =~= out@ + crlf_to_lf(s@.skip(i as int)));
        }
    }
    assert(s@.skip(i as int) =~= Seq::<u8>::empty());
    assert(out@ =~= out@ + crlf_to_lf(s@.skip(i as int)));
    out
}

/// Encode pasted text; oversized pastes are rejected.
pub fn encode_paste(text: &str, bracketed: bool) -> (r: Result<Vec<u8>, &'static str>)
    ensures
        r is Err <==> text.spec_bytes().len() > MAX_INPUT_BYTES - 12,
        r matches Ok(v) ==> v@ == paste_bytes(text.spec_bytes(), bracketed),
{
    if text.as_bytes().len() > MAX_INPUT_BYTES - 12 {
        return Err("Paste exceeds the input size limit");
    }
    let stripped = strip_escape_bytes(text.as_bytes());
    let joined = crlf_to_lf_bytes(&stripped);
    let ghost body = lf_to_cr(joined@);
    let mut out: Vec<u8> = Vec::new();
    if bracketed {
        out.push(27);
        out.push(91);
        out.push(50);
        out.push(48);
        out.push(48);
        out.push(126);
    }
    let ghost start = out@;
    let mut i: usize = 0;
    while i < joined.len()
        invariant
            i <= joined@.len(),
            out@ == start + lf_to_cr(joined@.take(i as int)),
        decreases joined@.len() - i,
    {
        let b = joined[i];
        out.push(if b == 10 { 13 } else { b });
        i += 1;
        proof {
            assert(lf_to_cr(joined@.take(i as int)) =~= lf_to_cr(joined@.take(i - 1)).push(
                if b == 10 { 13u8 } else { b },
            ));
            assert(out@ =~= start + lf_to_cr(joined@.take(i as int)));
        }
    }
    assert(joined@.take(joined@.len() as int) =~= joined@);
    if bracketed {
        out.push(27);
        out.push(91);
        out.push(50);
        out.push(48);
        out.push(49);
        out.push(126);
    }
    assert(out@ =~= paste_bytes(text.spec_bytes(), bracketed));
    Ok(out)
}

/// No byte of the sequence is an escape.
pub open spec fn escape_free(s: Seq<u8>) -> bool {
    forall|i: int| 0 <= i < s.len() ==> s[i] != 27
}

proof fn lemma_crlf_keeps_escape_free(s: Seq<u8>)
    requires
        escape_free(s),
    ensures
        escape_free(crlf_to_lf(s)),
    decreases s.len(),
{
    if s.len() >= 2 && s[0] == 13 && s[1] == 10 {
        assert forall|i: int| 0 <= i < s.skip(2).len() implies s.skip(2)[i] != 27 by {
            assert(s.skip(2)[i] == s[i + 2]);
        }
        lemma_crlf_keeps_escape_free(s.skip(2));
        let r = crlf_to_lf(s.skip(2));
        assert forall|i: int| 0 <= i < (seq![10u8] + r).len() implies (seq![10u8] + r)[i] != 27 by {
            if i > 0 {
                assert((seq![10u8] + r)[i] == r[i - 1]);
            }
        }
    } else if s.len() > 0 {
        assert forall|i: int| 0 <= i < s.skip(1).len() implies s.skip(1)[i] != 27 by {
            assert(s.skip(1)[i] == s[i + 1]);
        }
        lemma_crlf_keeps_escape_free(s.skip(1));
        let r = crlf_to_lf(s.skip(1));
        assert forall|i: int| 0 <= i < (seq![s[0]] + r).len() implies (seq![s[0]] + r)[i] != 27 by {
            if i > 0 {
                assert((seq![s[0]] + r)[i] == r[i - 1]);
            }
        }
    }
}

/// Pasted text never carries an escape byte, so clipboard contents cannot
/// end a bracketed paste early or inject control sequences: a bracketed
/// paste is the start marker, an escape-free body, and the end marker.
pub proof fn law_paste_body_has_no_escape(text: Seq<u8>, bracketed: bool)
    ensures
        ({
            let body = lf_to_cr(crlf_to_lf(strip_escape(text)));
            &&& escape_free(body)
            &&& paste_bytes(text, bracketed) == (if bracketed {
                seq![27u8, 91, 50, 48, 48, 126] + body + seq![27u8, 91, 50, 48, 49, 126]
            } else {
                body
            })
        }),
{
    let pred = |b: u8| b != 27;
    text.filter_lemma(pred);
    assert(strip_escape(text) == text.filter(pred));
    assert forall|i: int| 0 <= i < strip_escape(text).len() implies strip_escape(text)[i] != 27 by {
        assert(pred(text.filter(pred)[i]));
    }
    lemma_crlf_keeps_escape_free(strip_escape(text));
}

} // verus!

verus! {

/// F1 to F4 are sent in SS3 form when unmodified: ESC `O` and then `P`,
/// `Q`, `R` or `S`, whatever the cursor mode. With modifiers they take the
/// CSI form ESC `[1;` code and the same letter, the code being 1 plus 1 for
/// Shift, 2 for Alt and 4 for Control.
pub proof fn law_f1_to_f4(key: &str, m: Modifiers, application_cursor: bool)
    ensures
        ({
            let letter: u8 = if key@ == "f1"@ {
                0x50
            } else if key@ == "f2"@ {
                0x51
            } else if key@ == "f3"@ {
                0x52
            } else {
                0x53
            };
            let code: int = 1 + (if m.shift { 1int } else { 0 }) + (if m.alt { 2int } else { 0 }) + (if m.control {
                4int
            } else {
                0
            });
            (key@ == "f1"@ || key@ == "f2"@ || key@ == "f3"@ || key@ == "f4"@) ==> key_bytes(
                key,
                m,
                application_cursor,
            ) == Some(
                if !m.shift && !m.alt && !m.control {
                    seq![0x1bu8, 0x4f, letter]
                } else {
                    seq![0x1bu8, 0x5b, 0x31, 0x3b, (0x30 + code) as u8, letter]
                },
            )
        }),
{
    reveal_strlit("f1");
    reveal_strlit("f2");
    reveal_strlit("f3");
    reveal_strlit("f4");
    reveal_strlit("up");
    reveal_strlit("down");
    reveal_strlit("right");
    reveal_strlit("left");
    reveal_strlit("home");
    reveal_strlit("end");
    reveal_strlit("insert");
    reveal_strlit("delete");
    reveal_strlit("pageup");
    reveal_strlit("pagedown");
    reveal_strlit("f5");
    reveal_strlit("f6");
    reveal_strlit("f7");
    reveal_strlit("f8");
    reveal_strlit("f9");
    reveal_strlit("f10");
    reveal_strlit("f11");
    reveal_strlit("f12");
    let code = modifier_code(m);
    assert(code < 10);
    assert(decimal(code) == seq![(48 + code) as u8]);
    let k = key@;
    if k == "f1"@ || k == "f2"@ || k == "f3"@ || k == "f4"@ {
        assert(k.len() == 2 && k[0] == 'f' && '1' <= k[1] <= '4');
        assert("up"@[0] == 'u' && "down"@[0] == 'd' && "right"@[0] == 'r' && "left"@[0] == 'l');
        assert("home"@[0] == 'h' && "end"@[0] == 'e' && "insert"@[0] == 'i' && "delete"@[0] == 'd');
        assert("pageup"@[0] == 'p' && "pagedown"@[0] == 'p');
        assert("f5"@[1] == '5' && "f6"@[1] == '6' && "f7"@[1] == '7' && "f8"@[1] == '8' && "f9"@[1] == '9');
        assert("f10"@.len() == 3 && "f11"@.len() == 3 && "f12"@.len() == 3);
        assert("f1"@[1] == '1' && "f2"@[1] == '2' && "f3"@[1] == '3' && "f4"@[1] == '4');
        assert(cursor_letter(k) is None);
        assert(tilde_number(k) is None);
        let s = function_letter(k)->0;
        assert(function_letter(k) is Some);
        assert(seq![27u8, 91, 49, 59] + decimal(code) + seq![s] =~= seq![0x1bu8, 0x5b, 0x31, 0x3b, (0x30 + code) as u8, s]);
    }
}

} // verus!
