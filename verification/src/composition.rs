//! IME composition is local text; only an explicit commit reaches the PTY.
use vstd::prelude::*;
use vstd::string::*;
use vstd::utf8::*;
use std::ops::Range;
use crate::MAX_INPUT_BYTES;
use crate::text::{boundary_at, chars_of, lemma_boundary_unique, lemma_encode_utf8_concat, lemma_utf16_concat, lemma_prefix_monotone, lemma_utf16_le_utf8, string_from_chars, utf16_boundary, utf16_count, utf16_len, utf8_len};

verus! {

/// The character index of the boundary at UTF-16 offset `u`, if one exists.
pub open spec fn char_at_utf16(s: Seq<char>, u: int) -> Option<int> {
    if exists|k: int| utf16_boundary(s, u, k) {
        Some(choose|k: int| utf16_boundary(s, u, k))
    } else {
        None
    }
}

/// The byte offset of the boundary at UTF-16 offset `u`, if one exists.
pub open spec fn byte_at_utf16(s: Seq<char>, u: int) -> Option<nat> {
    match char_at_utf16(s, u) {
        Some(k) => Some(utf8_len(s.take(k))),
        None => None,
    }
}

/// Text between two UTF-16 offsets, when both fall on character boundaries.
pub open spec fn text_between(s: Seq<char>, start: int, end: int) -> Option<Seq<char>> {
    if start > end {
        None
    } else {
        match (char_at_utf16(s, start), char_at_utf16(s, end)) {
            (Some(a), Some(b)) => Some(s.subrange(a, b)),
            _ => None,
        }
    }
}

/// The outcome of an IME replacement on `text`: the new text and selection,
/// or the first check that rejects it.
pub open spec fn replace_result(
    text: Seq<char>,
    range: Option<Range<usize>>,
    new: &str,
    selected: Option<Range<usize>>,
) -> Result<(Seq<char>, int, int), &'static str> {
    let rs: int = match range {
        Some(r) => r.start as int,
        None => 0,
    };
    let re: int = match range {
        Some(r) => r.end as int,
        None => utf16_len(text) as int,
    };
    if rs > re {
        Err("Invalid IME replacement range")
    } else if char_at_utf16(text, rs) is None {
        Err("Invalid IME replacement start")
    } else if char_at_utf16(text, re) is None {
        Err("Invalid IME replacement end")
    } else {
        let ks = char_at_utf16(text, rs)->0;
        let ke = char_at_utf16(text, re)->0;
        let length = utf8_len(text) - (utf8_len(text.take(ke)) - utf8_len(text.take(ks)));
        let room = if length <= MAX_INPUT_BYTES { MAX_INPUT_BYTES - length } else { 0 };
        if new.spec_bytes().len() > room {
            Err("IME text exceeds the input size limit")
        } else {
            let count = utf16_len(new@) as int;
            let ss: int = match selected {
                Some(r) => r.start as int,
                None => count,
            };
            let se: int = match selected {
                Some(r) => r.end as int,
                None => count,
            };
            if ss > se || se > count {
                Err("Invalid IME selection")
            } else if char_at_utf16(new@, ss) is None || char_at_utf16(new@, se) is None {
                Err("Invalid IME selection boundary")
            } else {
                Ok((text.take(ks) + new@ + text.skip(ke), rs + ss, rs + se))
            }
        }
    }
}

proof fn lemma_char_at(s: Seq<char>, u: int, k: int)
    requires
        utf16_boundary(s, u, k),
    ensures
        char_at_utf16(s, u) == Some(k),
{
    let c = choose|j: int| utf16_boundary(s, u, j);
    lemma_boundary_unique(s, u, c, k);
}

fn locate(s: &[char], u: usize) -> (r: Option<(usize, usize)>)
    requires
        utf8_len(s@) <= usize::MAX,
    ensures
        match r {
            Some((k, b)) => char_at_utf16(s@, u as int) == Some(k as int) && b == utf8_len(
                s@.take(k as int),
            ) && k <= s@.len(),
            None => char_at_utf16(s@, u as int) is None,
        },
{
    let r = boundary_at(s, u);
    proof {
        if let Some((k, b)) = r {
            lemma_char_at(s@, u as int, k as int);
        }
    }
    r
}

/// `s[..ks] + new + s[ke..]`.
fn splice(s: &[char], ks: usize, ke: usize, new: &[char]) -> (r: Vec<char>)
    requires
        ks <= ke <= s@.len(),
    ensures
        r@ == s@.take(ks as int) + new@ + s@.skip(ke as int),
{
    let mut result: Vec<char> = Vec::new();
    let mut i: usize = 0;
    while i < ks
        invariant
            i <= ks <= s@.len(),
            result@ == s@.take(i as int),
        decreases ks - i,
    {
        result.push(s[i]);
        i += 1;
        proof {
            assert(result@ =~= s@.take(i as int));
        }
    }
    let mut j: usize = 0;
    while j < new.len()
        invariant
            j <= new@.len(),
            result@ == s@.take(ks as int) + new@.take(j as int),
        decreases new@.len() - j,
    {
        result.push(new[j]);
        j += 1;
        proof {
            assert(result@ =~= s@.take(ks as int) + new@.take(j as int));
        }
    }
    let mut k = ke;
    assert(new@.take(new@.len() as int) =~= new@);
    while k < s.len()
        invariant
            ke <= k <= s@.len(),
            result@ == s@.take(ks as int) + new@ + s@.subrange(ke as int, k as int),
        decreases s@.len() - k,
    {
        result.push(s[k]);
        k += 1;
        proof {
            assert(result@ =~= s@.take(ks as int) + new@ + s@.subrange(ke as int, k as int));
        }
    }
    assert(s@.subrange(ke as int, s@.len() as int) =~= s@.skip(ke as int));
    result
}

/// Byte length of a splice: the kept bytes plus the inserted ones.
proof fn lemma_splice_len(s: Seq<char>, ks: int, ke: int, new: Seq<char>)
    requires
        0 <= ks <= ke <= s.len(),
    ensures
        utf8_len(s.take(ks) + new + s.skip(ke)) == utf8_len(s) - (utf8_len(s.take(ke)) - utf8_len(
            s.take(ks),
        )) + utf8_len(new),
        utf8_len(s.take(ks)) <= utf8_len(s.take(ke)) <= utf8_len(s),
{
    assert(s =~= s.take(ks) + s.subrange(ks, ke) + s.skip(ke));
    lemma_encode_utf8_concat(s.take(ks) + s.subrange(ks, ke), s.skip(ke));
    lemma_encode_utf8_concat(s.take(ks), s.subrange(ks, ke));
    assert(s.take(ke) =~= s.take(ks) + s.subrange(ks, ke));
    lemma_encode_utf8_concat(s.take(ks) + new, s.skip(ke));
    lemma_encode_utf8_concat(s.take(ks), new);
}

/// A replacement reads back: once the composition text is replaced, the
/// text between the start of the replaced range and that start plus the
/// UTF-16 length of the inserted text is exactly the inserted text.
pub proof fn law_replacement_reads_back(
    text: Seq<char>,
    range: Option<Range<usize>>,
    new: &str,
    selected: Option<Range<usize>>,
)
    ensures
        match replace_result(text, range, new, selected) {
            Ok((after, _, _)) => {
                let start: int = match range {
                    Some(r) => r.start as int,
                    None => 0,
                };
                text_between(after, start, start + utf16_len(new@)) == Some(new@)
            },
            Err(_) => true,
        },
{
    if let Ok((after, _, _)) = replace_result(text, range, new, selected) {
        let rs: int = match range {
            Some(r) => r.start as int,
            None => 0,
        };
        let re: int = match range {
            Some(r) => r.end as int,
            None => utf16_len(text) as int,
        };
        let ks = char_at_utf16(text, rs)->0;
        let ke = char_at_utf16(text, re)->0;
        assert(utf16_boundary(text, rs, ks));
        assert(utf16_boundary(text, re, ke));
        let n = new@.len() as int;
        assert(after == text.take(ks) + new@ + text.skip(ke));
        assert(after.take(ks) =~= text.take(ks));
        lemma_char_at(after, rs, ks);
        assert(after.take(ks + n) =~= text.take(ks) + new@);
        lemma_utf16_concat(text.take(ks), new@);
        lemma_char_at(after, rs + utf16_len(new@), ks + n);
        assert(after.subrange(ks, ks + n) =~= new@);
    }
}

pub struct Composition {
    text: String,
    selection: Range<usize>,
}

impl Composition {
    #[verifier::type_invariant]
    spec fn bounded(self) -> bool {
        utf8_len(self.text@) <= MAX_INPUT_BYTES
    }
}

impl View for Composition {
    /// The composed text and the selection's UTF-16 bounds.
    type V = (Seq<char>, usize, usize);

    closed spec fn view(&self) -> (Seq<char>, usize, usize) {
        (self.text@, self.selection.start, self.selection.end)
    }
}

impl Default for Composition {
    fn default() -> (r: Self)
        ensures
            r@ == (Seq::<char>::empty(), 0usize, 0usize),
    {
        proof {
            assert(encode_utf8(Seq::<char>::empty()) =~= Seq::<u8>::empty());
        }
        Composition { text: String::new(), selection: Range { start: 0, end: 0 } }
    }
}

impl Composition {
    pub fn text(&self) -> (r: &str)
        ensures
            r@ == self@.0,
    {
        self.text.as_str()
    }

    pub fn selection(&self) -> (r: Range<usize>)
        ensures
            r.start == self@.1 && r.end == self@.2,
    {
        Range { start: self.selection.start, end: self.selection.end }
    }

    pub fn marked_range(&self) -> (r: Option<Range<usize>>)
        ensures
            match r {
                Some(m) => self@.0.len() > 0 && m.start == 0 && m.end == utf16_len(self@.0),
                None => self@.0.len() == 0,
            },
    {
        proof {
            use_type_invariant(self);
        }
        if self.text.as_str().is_empty() {
            None
        } else {
            let chars = chars_of(self.text.as_str());
            Some(Range { start: 0, end: utf16_count(&chars) })
        }
    }

    pub fn clear(&mut self)
        ensures
            final(self)@ == (Seq::<char>::empty(), 0usize, 0usize),
    {
        proof {
            assert(encode_utf8(Seq::<char>::empty()) =~= Seq::<u8>::empty());
        }
        self.text = String::new();
        self.selection = Range { start: 0, end: 0 };
    }

    /// Return None for an out-of-range offset or the middle of a surrogate pair.
    pub fn byte_offset(&self, utf16: usize) -> (r: Option<usize>)
        ensures
            match r {
                Some(b) => byte_at_utf16(self@.0, utf16 as int) == Some(b as nat),
                None => byte_at_utf16(self@.0, utf16 as int) is None,
            },
    {
        proof {
            use_type_invariant(self);
        }
        let chars = chars_of(self.text.as_str());
        match locate(&chars, utf16) {
            Some((_, b)) => Some(b),
            None => None,
        }
    }

    pub fn text_for_range(&self, range: Range<usize>) -> (r: Option<String>)
        ensures
            match r {
                Some(t) => text_between(self@.0, range.start as int, range.end as int) == Some(t@),
                None => text_between(self@.0, range.start as int, range.end as int) is None,
            },
    {
        proof {
            use_type_invariant(self);
        }
        if range.start > range.end {
            return None;
        }
        let chars = chars_of(self.text.as_str());
        let (a, _) = match locate(&chars, range.start) {
            Some(found) => found,
            None => return None,
        };
        let (b, _) = match locate(&chars, range.end) {
            Some(found) => found,
            None => return None,
        };
        proof {
            if a > b {
                lemma_prefix_monotone(chars@, b as int, a as int);
            }
        }
        let mut piece: Vec<char> = Vec::new();
        let mut i = a;
        while i < b
            invariant
                a <= i <= b <= chars@.len(),
                piece@ == chars@.subrange(a as int, i as int),
            decreases b - i,
        {
            piece.push(chars[i]);
            i += 1;
            proof {
                assert(piece@ =~= chars@.subrange(a as int, i as int));
            }
        }
        Some(string_from_chars(&piece))
    }

    pub fn replace(&mut self, range: Option<Range<usize>>, text: &str, selected: Option<Range<usize>>) -> (r: Result<(), &'static str>)
        ensures
            match r {
                Ok(()) => replace_result(old(self)@.0, range, text, selected) == Ok::<
                    (Seq<char>, int, int),
                    &'static str,
                >((final(self)@.0, final(self)@.1 as int, final(self)@.2 as int)),
                Err(e) => replace_result(old(self)@.0, range, text, selected) == Err::<
                    (Seq<char>, int, int),
                    &'static str,
                >(e) && final(self)@ == old(self)@,
            },
    {
        proof {
            use_type_invariant(&*self);
        }
        let chars = chars_of(self.text.as_str());
        let (rs, re) = match range {
            Some(r) => (r.start, r.end),
            None => (0, utf16_count(&chars)),
        };
        if rs > re {
            return Err("Invalid IME replacement range");
        }
        let (ks, start) = match locate(&chars, rs) {
            Some(found) => found,
            None => return Err("Invalid IME replacement start"),
        };
        let (ke, end) = match locate(&chars, re) {
            Some(found) => found,
            None => return Err("Invalid IME replacement end"),
        };
        proof {
            if ke < ks {
                lemma_prefix_monotone(chars@, ke as int, ks as int);
            }
            lemma_splice_len(chars@, ks as int, ke as int, Seq::<char>::empty());
        }
        let total = self.text.as_str().as_bytes().len();
        let length = total - (end - start);
        let room = if length <= MAX_INPUT_BYTES { MAX_INPUT_BYTES - length } else { 0 };
        if text.as_bytes().len() > room {
            return Err("IME text exceeds the input size limit");
        }
        let new_chars = chars_of(text);
        let count = utf16_count(&new_chars);
        let (ss, se) = match selected {
            Some(r) => (r.start, r.end),
            None => (count, count),
        };
        if ss > se || se > count {
            return Err("Invalid IME selection");
        }
        if locate(&new_chars, ss).is_none() || locate(&new_chars, se).is_none() {
            return Err("Invalid IME selection boundary");
        }
        let result = splice(&chars, ks, ke, &new_chars);
        proof {
            lemma_splice_len(chars@, ks as int, ke as int, new_chars@);
            lemma_utf16_le_utf8(new_chars@);
            lemma_utf16_le_utf8(chars@.take(ks as int));
            assert(rs <= MAX_INPUT_BYTES);
            assert(se <= MAX_INPUT_BYTES);
        }
        self.text = string_from_chars(&result);
        self.selection = Range { start: rs + ss, end: rs + se };
        Ok(())
    }
}

} // verus!
