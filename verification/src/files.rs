//! Read-only file access registered to one Preview workspace: the request
//! checks, the ordering of folder listings and the classification of file
//! previews. Opening and reading files happens outside the library.
use vstd::prelude::*;
use std::sync::atomic::AtomicBool;
use std::sync::atomic::Ordering;
use crate::text::str_eq;

verus! {

pub const MAX_DIRECTORY_ENTRIES: usize = 2000;

pub const MAX_TEXT_BYTES: usize = 512 * 1024;

pub const MAX_IMAGE_BYTES: usize = 8 * 1024 * 1024;

pub const MAX_IMAGE_PIXELS: u64 = 16_000_000;

#[derive(Clone, Debug)]
pub struct Entry {
    pub name: String,
    pub path: String,
    pub directory: bool,
    pub symlink: bool,
}

#[derive(Clone, Debug)]
pub struct Listing {
    pub entries: Vec<Entry>,
    pub truncated: bool,
}

#[derive(Clone, Copy, Debug, PartialEq, Eq, Structural)]
pub enum ImageKind {
    Png,
    Jpeg,
}

#[derive(Clone, Debug)]
pub enum Content {
    Text { text: String, truncated: bool, markdown: bool },
    Image { bytes: Vec<u8>, kind: ImageKind },
    Unsupported(String),
}

#[derive(Clone, Debug)]
pub struct Preview {
    pub size: u64,
    pub content: Content,
}

/// A big-endian 16-bit number.
pub open spec fn be16(hi: u8, lo: u8) -> u32 {
    ((hi as int) * 256 + (lo as int)) as u32
}

/// A big-endian 32-bit number.
pub open spec fn be32(a: u8, b: u8, c: u8, d: u8) -> u32 {
    ((a as int) * 16777216 + (b as int) * 65536 + (c as int) * 256 + (d as int)) as u32
}

pub open spec fn png_signature() -> Seq<u8> {
    seq![0x89u8, 0x50, 0x4e, 0x47, 0x0d, 0x0a, 0x1a, 0x0a]
}

pub open spec fn ihdr() -> Seq<u8> {
    seq![0x49u8, 0x48, 0x44, 0x52]
}

/// The end of a run of `0xff` fill bytes starting at `i`.
pub open spec fn ff_run_end(b: Seq<u8>, i: int) -> int
    decreases b.len() - i,
{
    if 0 <= i < b.len() && b[i] == 0xff {
        ff_run_end(b, i + 1)
    } else {
        i
    }
}

pub proof fn lemma_ff_run_end(b: Seq<u8>, i: int)
    requires
        0 <= i,
    ensures
        i <= ff_run_end(b, i),
        ff_run_end(b, i) < b.len() ==> b[ff_run_end(b, i)] != 0xff,
        ff_run_end(b, i) <= b.len() || ff_run_end(b, i) == i,
    decreases b.len() - i,
{
    if 0 <= i < b.len() && b[i] == 0xff {
        lemma_ff_run_end(b, i + 1);
    }
}

/// Start-of-frame markers, whose segment holds the image size.
pub open spec fn is_frame_marker(m: u8) -> bool {
    (0xc0 <= m <= 0xc3) || (0xc5 <= m <= 0xc7) || (0xc9 <= m <= 0xcb) || (0xcd <= m <= 0xcf)
}

/// Walks JPEG segments from `offset` to the first frame header, giving
/// its width and height.
pub open spec fn jpeg_scan(b: Seq<u8>, offset: int) -> Option<(u32, u32)>
    decreases b.len() - offset,
{
    if offset < 0 || offset >= b.len() {
        None
    } else if b[offset] != 0xff {
        None
    } else {
        let m = ff_run_end(b, offset);
        proof {
            lemma_ff_run_end(b, offset);
        }
        if m >= b.len() {
            None
        } else {
            let marker = b[m];
            let at = m + 1;
            if marker == 0xd9 || marker == 0xda {
                None
            } else if marker == 0x01 || (0xd0 <= marker <= 0xd7) {
                jpeg_scan(b, at)
            } else if at + 2 > b.len() {
                None
            } else {
                let length = be16(b[at], b[at + 1]);
                if length < 2 || at + length > b.len() {
                    None
                } else if is_frame_marker(marker) {
                    if length < 8 {
                        None
                    } else {
                        Some((be16(b[at + 5], b[at + 6]), be16(b[at + 3], b[at + 4])))
                    }
                } else {
                    jpeg_scan(b, at + length)
                }
            }
        }
    }
}

/// The kind and size that a PNG or JPEG header declares.
pub open spec fn image_header(b: Seq<u8>) -> Option<(ImageKind, u32, u32)> {
    if b.len() >= 8 && b.take(8) == png_signature() {
        if b.len() < 16 {
            None
        } else if b.subrange(12, 16) == ihdr() {
            if b.len() < 24 {
                None
            } else {
                Some((ImageKind::Png, be32(b[16], b[17], b[18], b[19]), be32(b[20], b[21], b[22], b[23])))
            }
        } else {
            None
        }
    } else if b.len() >= 2 && b[0] == 0xff && b[1] == 0xd8 {
        match jpeg_scan(b, 2) {
            Some((w, h)) => Some((ImageKind::Jpeg, w, h)),
            None => None,
        }
    } else {
        None
    }
}

fn read_be16(b: &[u8], at: usize) -> (r: u32)
    requires
        at + 2 <= b@.len(),
    ensures
        r == be16(b@[at as int], b@[at + 1]),
{
    (b[at] as u32) * 256 + (b[at + 1] as u32)
}

fn read_be32(b: &[u8], at: usize) -> (r: u32)
    requires
        at + 4 <= b@.len(),
    ensures
        r == be32(b@[at as int], b@[at + 1], b@[at + 2], b@[at + 3]),
{
    let x: u64 = (b[at] as u64) * 16777216 + (b[at + 1] as u64) * 65536 + (b[at + 2] as u64) * 256 + (
    b[at + 3] as u64);
    x as u32
}

fn jpeg_frame(b: &[u8]) -> (r: Option<(u32, u32)>)
    requires
        b@.len() >= 2,
    ensures
        r == jpeg_scan(b@, 2),
{
    let n = b.len();
    let mut offset: usize = 2;
    while offset < n
        invariant
            n == b@.len(),
            2 <= offset,
            jpeg_scan(b@, 2) == jpeg_scan(b@, offset as int),
        decreases n - offset,
    {
        if b[offset] != 0xff {
            return None;
        }
        let ghost start = offset as int;
        proof {
            lemma_ff_run_end(b@, start);
        }
        while offset < n && b[offset] == 0xff
            invariant
                n == b@.len(),
                start <= offset <= n,
                ff_run_end(b@, start) == ff_run_end(b@, offset as int),
            decreases n - offset,
        {
            offset += 1;
        }
        if offset >= n {
            return None;
        }
        let marker = b[offset];
        offset += 1;
        if marker == 0xd9 || marker == 0xda {
            return None;
        }
        if marker == 0x01 || (0xd0 <= marker && marker <= 0xd7) {
            continue;
        }
        if n - offset < 2 {
            return None;
        }
        let length = read_be16(b, offset);
        if length < 2 || (length as usize) > n - offset {
            return None;
        }
        if (0xc0 <= marker && marker <= 0xc3) || (0xc5 <= marker && marker <= 0xc7) || (0xc9 <= marker
            && marker <= 0xcb) || (0xcd <= marker && marker <= 0xcf) {
            if length < 8 {
                return None;
            }
            let height = read_be16(b, offset + 3);
            let width = read_be16(b, offset + 5);
            return Some((width, height));
        }
        offset += length as usize;
    }
    None
}

/// The kind and pixel size that a PNG or JPEG header declares.
pub fn image_dimensions(bytes: &[u8]) -> (r: Option<(ImageKind, u32, u32)>)
    ensures
        r == image_header(bytes@),
{
    let n = bytes.len();
    if n >= 8 && bytes[0] == 0x89 && bytes[1] == 0x50 && bytes[2] == 0x4e && bytes[3] == 0x47 && bytes[4]
        == 0x0d && bytes[5] == 0x0a && bytes[6] == 0x1a && bytes[7] == 0x0a {
        proof {
            assert(bytes@.take(8) =~= png_signature());
        }
        if n < 16 {
            return None;
        }
        if bytes[12] == 0x49 && bytes[13] == 0x48 && bytes[14] == 0x44 && bytes[15] == 0x52 {
            proof {
                assert(bytes@.subrange(12, 16) =~= ihdr());
            }
            if n < 24 {
                return None;
            }
            return Some((ImageKind::Png, read_be32(bytes, 16), read_be32(bytes, 20)));
        }
        proof {
            if bytes@.subrange(12, 16) == ihdr() {
                assert(bytes@.subrange(12, 16)[0] == bytes@[12]);
                assert(bytes@.subrange(12, 16)[1] == bytes@[13]);
                assert(bytes@.subrange(12, 16)[2] == bytes@[14]);
                assert(bytes@.subrange(12, 16)[3] == bytes@[15]);
            }
        }
        return None;
    }
    proof {
        if n >= 8 && bytes@.take(8) == png_signature() {
            assert(bytes@.take(8)[0] == bytes@[0]);
            assert(bytes@.take(8)[1] == bytes@[1]);
            assert(bytes@.take(8)[2] == bytes@[2]);
            assert(bytes@.take(8)[3] == bytes@[3]);
            assert(bytes@.take(8)[4] == bytes@[4]);
            assert(bytes@.take(8)[5] == bytes@[5]);
            assert(bytes@.take(8)[6] == bytes@[6]);
            assert(bytes@.take(8)[7] == bytes@[7]);
        }
    }
    if n >= 2 && bytes[0] == 0xff && bytes[1] == 0xd8 {
        return match jpeg_frame(bytes) {
            Some((w, h)) => Some((ImageKind::Jpeg, w, h)),
            None => None,
        };
    }
    None
}

/// Why a workspace-relative request path is refused, if it is. The empty
/// path names the workspace folder itself.
pub open spec fn relative_error(path: Seq<char>) -> Option<&'static str> {
    if crate::text::utf8_len(path) > 8192 {
        Some("The file path is too long")
    } else if (exists|i: int| 0 <= i < path.len() && crate::workspace::forbidden_char(#[trigger] path[i])) || (
    path.len() > 0 && !crate::workspace::normalized(path)) {
        Some("Use a normalized relative file path")
    } else {
        None
    }
}

/// Checks a request path before it is joined to the workspace folder.
pub fn check_relative(relative: &str) -> (r: Result<(), &'static str>)
    ensures
        match r {
            Ok(()) => relative_error(relative@) is None,
            Err(e) => relative_error(relative@) == Some(e),
        },
{
    if relative.as_bytes().len() > 8192 {
        return Err("The file path is too long");
    }
    if relative.is_empty() {
        return Ok(());
    }
    match crate::workspace::validate_relative_path(relative) {
        Ok(_) => Ok(()),
        Err(e) => Err("Use a normalized relative file path"),
    }
}

/// The answer to a request for a closed or foreign workspace.
pub open spec fn closed_message() -> Seq<char> {
    "The workspace file session is closed or invalid"@
}

/// Whether a request for workspace `id` may be served by the service of
/// workspace `owner`, while it is `active`.
pub fn access(active: bool, owner: u64, id: u64) -> (r: Result<(), &'static str>)
    ensures
        r is Ok <==> active && owner == id,
        r matches Err(e) ==> e@ == closed_message(),
{
    if active && owner == id {
        Ok(())
    } else {
        Err("The workspace file session is closed or invalid")
    }
}

/// Read-only file access registered to one workspace folder, until revoked.
pub struct WorkspaceFiles {
    id: u64,
    root: std::path::PathBuf,
    active: AtomicBool,
}

impl WorkspaceFiles {
    /// The workspace identifier this service answers for.
    pub closed spec fn owner(&self) -> u64 {
        self.id
    }

    /// The canonical workspace folder.
    pub closed spec fn folder(&self) -> std::path::PathBuf {
        self.root
    }

    /// Registers access to `root`, a workspace folder already resolved to its
    /// canonical path.
    pub fn register(id: u64, root: std::path::PathBuf) -> (r: Result<Self, &'static str>)
        ensures
            r is Ok <==> id != 0,
            r matches Ok(f) ==> f.owner() == id && f.folder() == root,
            r matches Err(e) ==> e@ == "Invalid workspace identifier"@,
    {
        if id == 0 {
            return Err("Invalid workspace identifier");
        }
        Ok(Self { id, root, active: AtomicBool::new(true) })
    }

    /// Ends access for every later request.
    pub fn revoke(&self) {
        self.active.store(false, Ordering::Release);
    }

    /// Refuses requests for another workspace, and every request after
    /// revocation.
    pub fn authorize(&self, id: u64) -> (r: Result<(), &'static str>)
        ensures
            r is Ok ==> id == self.owner(),
            id != self.owner() ==> (r matches Err(e) && e@ == closed_message()),
            r matches Err(e) ==> e@ == closed_message(),
    {
        let active = self.active.load(Ordering::Acquire);
        access(active, self.id, id)
    }

    /// Authorizes a request and checks its path, in that order.
    pub fn check_request(&self, id: u64, relative: &str) -> (r: Result<(), &'static str>)
        ensures
            r is Ok ==> id == self.owner() && relative_error(relative@) is None,
            id != self.owner() ==> (r matches Err(e) && e@ == closed_message()),
            match r {
                Err(e) => e@ == closed_message() || (id == self.owner() && relative_error(relative@) == Some(e)),
                Ok(()) => true,
            },
    {
        match self.authorize(id) {
            Err(e) => {
                return Err(e);
            },
            Ok(()) => {},
        }
        check_relative(relative)
    }

    /// The canonical workspace folder.
    pub fn root(&self) -> (r: &std::path::PathBuf)
        ensures
            *r == self.folder(),
    {
        &self.root
    }

    pub fn id(&self) -> (r: u64)
        ensures
            r == self.owner(),
    {
        self.id
    }
}

/// Lexicographic order of character sequences by code point, which is the
/// byte order of their UTF-8 encodings.
pub open spec fn text_less(a: Seq<char>, b: Seq<char>) -> bool
    decreases a.len(),
{
    if a.len() == 0 {
        b.len() > 0
    } else if b.len() == 0 {
        false
    } else if a[0] != b[0] {
        (a[0] as u32) < (b[0] as u32)
    } else {
        text_less(a.drop_first(), b.drop_first())
    }
}

pub proof fn lemma_text_less_irreflexive(a: Seq<char>)
    ensures
        !text_less(a, a),
    decreases a.len(),
{
    if a.len() > 0 {
        lemma_text_less_irreflexive(a.drop_first());
    }
}

pub proof fn lemma_text_less_transitive(a: Seq<char>, b: Seq<char>, c: Seq<char>)
    requires
        text_less(a, b),
        text_less(b, c),
    ensures
        text_less(a, c),
    decreases a.len(),
{
    if a.len() > 0 && a[0] == b[0] && b[0] == c[0] {
        lemma_text_less_transitive(a.drop_first(), b.drop_first(), c.drop_first());
    }
    if a.len() > 0 && a[0] != b[0] && b[0] != c[0] {
        vstd::utf8::char_u32_cast(a[0], a[0] as u32);
    }
}

/// The lowercase form of a text under Unicode case mapping.
pub uninterp spec fn lowercase(s: Seq<char>) -> Seq<char>;

/// `str::to_lowercase`: Unicode lowercase mapping, which depends on the
/// text alone; what it yields is named, not stated.
#[verifier::external_body]
fn to_lowercase(s: &str) -> (r: String)
    ensures
        r@ == lowercase(s@),
{
    s.to_lowercase()
}

/// Listing order: folders first, then by lowercase name, then by name.
pub open spec fn listed_before(a: Entry, b: Entry) -> bool {
    ||| a.directory && !b.directory
    ||| a.directory == b.directory && text_less(lowercase(a.name@), lowercase(b.name@))
    ||| a.directory == b.directory && lowercase(a.name@) == lowercase(b.name@) && text_less(a.name@, b.name@)
}

pub proof fn lemma_listed_before_irreflexive(a: Entry)
    ensures
        !listed_before(a, a),
{
    lemma_text_less_irreflexive(lowercase(a.name@));
    lemma_text_less_irreflexive(a.name@);
}

pub proof fn lemma_listed_before_transitive(a: Entry, b: Entry, c: Entry)
    requires
        listed_before(a, b),
        listed_before(b, c),
    ensures
        listed_before(a, c),
{
    let (la, lb, lc) = (lowercase(a.name@), lowercase(b.name@), lowercase(c.name@));
    if a.directory == b.directory && b.directory == c.directory {
        if text_less(la, lb) && text_less(lb, lc) {
            lemma_text_less_transitive(la, lb, lc);
        }
        if text_less(a.name@, b.name@) && text_less(b.name@, c.name@) {
            lemma_text_less_transitive(a.name@, b.name@, c.name@);
        }
    }
}

/// Entries in listing order.
pub open spec fn in_listing_order(s: Seq<Entry>) -> bool {
    forall|i: int, j: int| 0 <= i < j < s.len() ==> !listed_before(#[trigger] s[j], #[trigger] s[i])
}

fn chars_less(a: &[char], b: &[char]) -> (r: bool)
    ensures
        r == text_less(a@, b@),
{
    let mut i: usize = 0;
    proof {
        lemma_skip_zero(a@);
        lemma_skip_zero(b@);
    }
    while i < a.len() && i < b.len() && a[i] == b[i]
        invariant
            i <= a@.len(),
            i <= b@.len(),
            text_less(a@, b@) == text_less(a@.skip(i as int), b@.skip(i as int)),
        decreases a@.len() - i,
    {
        proof {
            assert(a@.skip(i as int).drop_first() =~= a@.skip(i + 1));
            assert(b@.skip(i as int).drop_first() =~= b@.skip(i + 1));
        }
        i += 1;
    }
    proof {
        if i < a@.len() {
            assert(a@.skip(i as int)[0] == a@[i as int]);
        }
        if i < b@.len() {
            assert(b@.skip(i as int)[0] == b@[i as int]);
        }
    }
    if i == a.len() {
        i < b.len()
    } else if i == b.len() {
        false
    } else {
        (a[i] as u32) < (b[i] as u32)
    }
}

proof fn lemma_skip_zero(s: Seq<char>)
    ensures
        s.skip(0) == s,
{
    assert(s.skip(0) =~= s);
}

fn less_text(a: &str, b: &str) -> (r: bool)
    ensures
        r == text_less(a@, b@),
{
    let x = crate::text::chars_of(a);
    let y = crate::text::chars_of(b);
    chars_less(&x, &y)
}

fn entry_before(a: &Entry, b: &Entry) -> (r: bool)
    ensures
        r == listed_before(*a, *b),
{
    if a.directory != b.directory {
        return a.directory;
    }
    let la = to_lowercase(a.name.as_str());
    let lb = to_lowercase(b.name.as_str());
    if less_text(la.as_str(), lb.as_str()) {
        return true;
    }
    if !crate::text::str_eq(la.as_str(), lb.as_str()) {
        return false;
    }
    less_text(a.name.as_str(), b.name.as_str())
}

/// The entries in listing order: folders first, then by lowercase name,
/// then by name.
pub fn sort_entries(entries: Vec<Entry>) -> (r: Vec<Entry>)
    ensures
        r@.to_multiset() == entries@.to_multiset(),
        in_listing_order(r@),
{
    broadcast use vstd::multiset::group_multiset_axioms;

    let ghost all = entries@;
    let mut rest = entries;
    let mut out: Vec<Entry> = Vec::new();
    proof {
        assert(out@.to_multiset() =~= vstd::multiset::Multiset::<Entry>::empty()) by {
            vstd::seq_lib::to_multiset_len(out@);
        }
        assert(out@.to_multiset().add(rest@.to_multiset()) =~= all.to_multiset());
    }
    while rest.len() > 0
        invariant
            out@.to_multiset().add(rest@.to_multiset()) == all.to_multiset(),
            in_listing_order(out@),
        decreases rest@.len(),
    {
        let ghost rest_before = rest@;
        let x = match rest.pop() {
            Some(x) => x,
            None => {
                return out;
            },
        };
        proof {
            assert(rest_before =~= rest@.push(x));
            vstd::seq_lib::to_multiset_build(rest@, x);
        }
        let mut p: usize = 0;
        while p < out.len() && !entry_before(&x, &out[p])
            invariant
                p <= out@.len(),
                forall|k: int| 0 <= k < p ==> !listed_before(x, #[trigger] out@[k]),
            decreases out@.len() - p,
        {
            p += 1;
        }
        let ghost before = out@;
        out.insert(p, x);
        proof {
            vstd::seq_lib::to_multiset_insert(before, p as int, x);
            assert(out@.to_multiset().add(rest@.to_multiset()) =~= before.to_multiset().add(
                rest_before.to_multiset(),
            ));
            assert forall|a: int, b: int| 0 <= a < b < out@.len() implies !listed_before(
                #[trigger] out@[b],
                #[trigger] out@[a],
            ) by {
                if a < p && b < p {
                    assert(out@[a] == before[a] && out@[b] == before[b]);
                } else if a < p && b == p {
                    assert(out@[a] == before[a]);
                } else if a < p && b > p {
                    assert(out@[a] == before[a] && out@[b] == before[b - 1]);
                } else if a == p {
                    assert(out@[b] == before[b - 1]);
                    if listed_before(out@[b], x) {
                        assert(listed_before(x, before[p as int]));
                        lemma_listed_before_transitive(out@[b], x, before[p as int]);
                        if b - 1 == p {
                            lemma_listed_before_irreflexive(before[p as int]);
                        }
                    }
                } else {
                    assert(out@[a] == before[a - 1] && out@[b] == before[b - 1]);
                }
            }
        }
    }
    proof {
        assert(rest@ =~= Seq::<Entry>::empty());
        assert(rest@.to_multiset() =~= vstd::multiset::Multiset::<Entry>::empty()) by {
            vstd::seq_lib::to_multiset_len(rest@);
        }
        assert(out@.to_multiset() =~= out@.to_multiset().add(rest@.to_multiset()));
    }
    out
}

/// Index of the last occurrence of `c`.
pub open spec fn last_index(s: Seq<char>, c: char) -> Option<int>
    decreases s.len(),
{
    if s.len() == 0 {
        None
    } else if s.last() == c {
        Some(s.len() - 1)
    } else {
        last_index(s.drop_last(), c)
    }
}

pub proof fn lemma_last_index(s: Seq<char>, c: char)
    ensures
        last_index(s, c) matches Some(k) ==> 0 <= k < s.len() && s[k] == c,
        last_index(s, c) is None ==> forall|i: int| 0 <= i < s.len() ==> s[i] != c,
    decreases s.len(),
{
    if s.len() > 0 && s.last() != c {
        lemma_last_index(s.drop_last(), c);
        if last_index(s, c) is None {
            assert forall|i: int| 0 <= i < s.len() implies s[i] != c by {
                if i < s.len() - 1 {
                    assert(s.drop_last()[i] == s[i]);
                }
            }
        }
    }
}

/// The last component of a path.
pub open spec fn file_name(path: Seq<char>) -> Seq<char> {
    match last_index(path, '/') {
        Some(k) => path.skip(k + 1),
        None => path,
    }
}

/// `Path::extension` of a file name: what follows its last dot, unless
/// that dot begins the name or the name is `..`.
pub open spec fn name_extension(name: Seq<char>) -> Seq<char> {
    if name == seq!['.', '.'] {
        Seq::empty()
    } else {
        match last_index(name, '.') {
            Some(k) => if k == 0 {
                Seq::empty()
            } else {
                name.skip(k + 1)
            },
            None => Seq::empty(),
        }
    }
}

pub open spec fn ascii_lower(c: char) -> char {
    if 'A' <= c <= 'Z' {
        ((c as u32) + 32) as char
    } else {
        c
    }
}

/// The extension of the file a path names, in ASCII lowercase.
pub open spec fn extension(path: Seq<char>) -> Seq<char> {
    name_extension(file_name(path)).map_values(|c: char| ascii_lower(c))
}

fn last_index_of(s: &[char], c: char) -> (r: Option<usize>)
    ensures
        r matches Some(k) ==> last_index(s@, c) == Some(k as int),
        r is None ==> last_index(s@, c) is None,
{
    let mut i: usize = s.len();
    proof {
        assert(s@.take(s@.len() as int) =~= s@);
    }
    while i > 0
        invariant
            i <= s@.len(),
            last_index(s@, c) == last_index(s@.take(i as int), c),
        decreases i,
    {
        proof {
            assert(s@.take(i as int).drop_last() =~= s@.take(i - 1));
        }
        if s[i - 1] == c {
            return Some(i - 1);
        }
        i -= 1;
    }
    None
}

fn copy_from(s: &[char], from: usize) -> (r: Vec<char>)
    requires
        from <= s@.len(),
    ensures
        r@ == s@.skip(from as int),
{
    let mut out: Vec<char> = Vec::new();
    let mut i = from;
    while i < s.len()
        invariant
            from <= i <= s@.len(),
            out@ == s@.subrange(from as int, i as int),
        decreases s@.len() - i,
    {
        out.push(s[i]);
        i += 1;
        proof {
            assert(out@ =~= s@.subrange(from as int, i as int));
        }
    }
    proof {
        assert(out@ =~= s@.skip(from as int));
    }
    out
}

/// The lowercase extension of the file named by `relative`.
pub fn extension_of(relative: &str) -> (r: String)
    ensures
        r@ == extension(relative@),
{
    let path = crate::text::chars_of(relative);
    let n = path.len();
    proof {
        lemma_last_index(path@, '/');
    }
    let name = match last_index_of(&path, '/') {
        Some(k) => {
            assert(k < n);
            copy_from(&path, k + 1)
        },
        None => path,
    };
    proof {
        lemma_last_index(name@, '.');
    }
    let dotdot = name.len() == 2 && name[0] == '.' && name[1] == '.';
    proof {
        if name@ == seq!['.', '.'] {
            assert(name@[0] == '.' && name@[1] == '.');
        }
        if dotdot {
            assert(name@ =~= seq!['.', '.']);
        }
    }
    let m = name.len();
    let ext: Vec<char> = if dotdot {
        Vec::new()
    } else {
        match last_index_of(&name, '.') {
            Some(k) => if k == 0 {
                Vec::new()
            } else {
                assert(k < m);
                copy_from(&name, k + 1)
            },
            None => Vec::new(),
        }
    };
    let mut lower: Vec<char> = Vec::new();
    let mut i: usize = 0;
    while i < ext.len()
        invariant
            i <= ext@.len(),
            lower@ == ext@.take(i as int).map_values(|c: char| ascii_lower(c)),
        decreases ext@.len() - i,
    {
        let c = ext[i];
        let l = if 'A' <= c && c <= 'Z' {
            proof {
                vstd::utf8::char_u32_cast(c, c as u32);
            }
            char_plus_32(c)
        } else {
            c
        };
        lower.push(l);
        i += 1;
        proof {
            assert(lower@ =~= ext@.take(i as int).map_values(|c: char| ascii_lower(c)));
        }
    }
    proof {
        assert(ext@.take(ext@.len() as int) =~= ext@);
        assert(ext@ =~= name_extension(file_name(relative@)));
    }
    crate::text::string_from_chars(&lower)
}

fn char_plus_32(c: char) -> (r: char)
    requires
        'A' <= c <= 'Z',
    ensures
        r == ascii_lower(c),
{
    let r = ((c as u8) + 32) as char;
    r
}

pub open spec fn is_image_extension(ext: Seq<char>) -> bool {
    ext == "png"@ || ext == "jpg"@ || ext == "jpeg"@
}

pub open spec fn is_markdown_extension(ext: Seq<char>) -> bool {
    ext == "md"@ || ext == "markdown"@ || ext == "mdown"@
}

/// Whether previews of files with this extension show images.
pub fn image_extension(ext: &str) -> (r: bool)
    ensures
        r == is_image_extension(ext@),
{
    str_eq(ext, "png") || str_eq(ext, "jpg") || str_eq(ext, "jpeg")
}

/// Whether previews of files with this extension render markdown.
pub fn markdown_extension(ext: &str) -> (r: bool)
    ensures
        r == is_markdown_extension(ext@),
{
    str_eq(ext, "md") || str_eq(ext, "markdown") || str_eq(ext, "mdown")
}

/// The most bytes a preview keeps.
pub open spec fn read_limit(image: bool) -> nat {
    if image {
        MAX_IMAGE_BYTES as nat
    } else {
        MAX_TEXT_BYTES as nat
    }
}

/// The most bytes a preview keeps; one byte more is read to notice a cut.
pub fn preview_limit(image: bool) -> (r: usize)
    ensures
        r == read_limit(image),
{
    if image {
        MAX_IMAGE_BYTES
    } else {
        MAX_TEXT_BYTES
    }
}

/// An image whose file is larger than the limit is refused before reading.
pub fn oversized_image(image: bool, size: u64) -> (r: Option<Content>)
    ensures
        r is Some <==> image && size > MAX_IMAGE_BYTES,
        r matches Some(c) ==> c matches Content::Unsupported(m) && m@ == "Image preview is limited to 8 MiB"@,
{
    if image && size > MAX_IMAGE_BYTES as u64 {
        Some(Content::Unsupported("Image preview is limited to 8 MiB".to_owned()))
    } else {
        None
    }
}

/// A decoded image size the viewer accepts.
pub open spec fn image_accepted(w: u32, h: u32) -> bool {
    w > 0 && h > 0 && w <= 8192 && h <= 8192 && (w as int) * (h as int) <= MAX_IMAGE_PIXELS
}

/// The image kind shown for the kept bytes, if any.
pub open spec fn image_outcome(kept: Seq<u8>, truncated: bool) -> Option<ImageKind> {
    if truncated {
        None
    } else {
        match image_header(kept) {
            Some((kind, w, h)) => if image_accepted(w, h) {
                Some(kind)
            } else {
                None
            },
            None => None,
        }
    }
}

/// `tail` is the start of the UTF-8 encoding of one character, cut before
/// the character's last byte.
pub open spec fn cut_character(tail: Seq<u8>) -> bool {
    exists|c: char|
        0 < tail.len() < vstd::utf8::encode_utf8(seq![c]).len() && #[trigger] vstd::utf8::encode_utf8(
            seq![c],
        ).take(tail.len() as int) == tail
}

/// `p` is the length of the longest prefix of `bytes` that is UTF-8.
pub open spec fn longest_valid_prefix(bytes: Seq<u8>, p: int) -> bool {
    &&& 0 <= p <= bytes.len()
    &&& vstd::utf8::valid_utf8(bytes.take(p))
    &&& forall|k: int| p < k <= bytes.len() ==> !vstd::utf8::valid_utf8(#[trigger] bytes.take(k))
}

/// The length of the longest UTF-8 prefix of `bytes`.
pub open spec fn valid_prefix_len(bytes: Seq<u8>) -> int {
    choose|p: int| longest_valid_prefix(bytes, p)
}

/// The bytes end inside a character: the longest UTF-8 prefix is followed
/// by the start of one character's encoding and nothing else.
pub open spec fn ends_in_cut_character(bytes: Seq<u8>) -> bool {
    cut_character(bytes.skip(valid_prefix_len(bytes)))
}

proof fn lemma_valid_prefix_len(bytes: Seq<u8>, p: int)
    requires
        longest_valid_prefix(bytes, p),
    ensures
        valid_prefix_len(bytes) == p,
{
    let q = valid_prefix_len(bytes);
    assert(longest_valid_prefix(bytes, q));
    if q < p {
        assert(!vstd::utf8::valid_utf8(bytes.take(p)));
    }
    if p < q {
        assert(!vstd::utf8::valid_utf8(bytes.take(q)));
    }
}

/// `std::str::from_utf8`, reporting `Utf8Error::valid_up_to`, the length of
/// the longest UTF-8 prefix (all of the bytes when they are UTF-8), and
/// whether `Utf8Error::error_len` is `None`. The documentation says that
/// `None` means the end of the input was reached inside a character, 1 to 3
/// bytes after the valid prefix, and `Some` that an unexpected byte was met:
/// so the flag is set exactly when the bytes after the valid prefix are the
/// start of one character's encoding.
#[verifier::external_body]
fn utf8_prefix(bytes: &[u8]) -> (r: (usize, bool))
    ensures
        r.0 <= bytes@.len(),
        vstd::utf8::valid_utf8(bytes@.take(r.0 as int)),
        forall|k: int| r.0 < k <= bytes@.len() ==> !vstd::utf8::valid_utf8(#[trigger] bytes@.take(k)),
        r.1 <==> r.0 < bytes@.len() && cut_character(bytes@.skip(r.0 as int)),
        r.1 ==> 1 <= bytes@.len() - r.0 <= 3,
{
    match std::str::from_utf8(bytes) {
        Ok(_) => (bytes.len(), false),
        Err(e) => (e.valid_up_to(), e.error_len().is_none()),
    }
}

pub open spec fn text_outcome_ok(r: Content, kept: Seq<u8>, truncated: bool, markdown: bool) -> bool {
    if kept.contains(0) {
        r matches Content::Unsupported(m) && m@ == "Binary preview is not available for this file type"@
    } else if vstd::utf8::valid_utf8(kept) {
        r matches Content::Text { text, truncated: t, markdown: md } && text@ == vstd::utf8::decode_utf8(kept)
            && t == truncated && md == markdown
    } else if truncated && ends_in_cut_character(kept) {
        r matches Content::Text { text, truncated: t, markdown: md } && text@ == vstd::utf8::decode_utf8(
            kept.take(valid_prefix_len(kept)),
        ) && t && md == markdown
    } else {
        r matches Content::Unsupported(m) && m@ == "This file is not UTF-8 text; binary preview is unavailable"@
    }
}

/// The preview of the bytes read from a file with extension `ext`, which
/// are at most one byte over the limit for that kind of file: kept up to
/// the limit, then shown as an accepted image, as UTF-8 text, or refused.
pub fn classify(ext: &str, bytes: Vec<u8>) -> (r: Content)
    ensures
        ({
            let image = is_image_extension(ext@);
            let limit = read_limit(image);
            let truncated = bytes@.len() > limit;
            let kept = if truncated {
                bytes@.take(limit as int)
            } else {
                bytes@
            };
            if image {
                match image_outcome(kept, truncated) {
                    Some(k) => r matches Content::Image { bytes: b, kind } && b@ == kept && kind == k,
                    None => r matches Content::Unsupported(m) && m@ == (if truncated {
                        "Image preview is limited to 8 MiB"@
                    } else {
                        "Unsupported or oversized image (maximum 16 megapixels, 8192 pixels per side)"@
                    }),
                }
            } else {
                text_outcome_ok(r, kept, truncated, is_markdown_extension(ext@))
            }
        }),
{
    let ghost all_read = bytes@;
    let image = image_extension(ext);
    let limit = preview_limit(image);
    let truncated = bytes.len() > limit;
    let mut bytes = bytes;
    if truncated {
        bytes.truncate(limit);
    }
    let ghost kept = bytes@;
    proof {
        assert(kept == (if truncated {
            all_read.take(limit as int)
        } else {
            all_read
        }));
    }
    if image {
        if truncated {
            return Content::Unsupported("Image preview is limited to 8 MiB".to_owned());
        }
        return match image_dimensions(bytes.as_slice()) {
            Some((kind, width, height)) => {
                let small = width > 0 && height > 0 && width <= 8192 && height <= 8192;
                let fits = small && {
                    proof {
                        assert((width as u64) * (height as u64) <= 8192 * 8192) by (nonlinear_arith)
                            requires
                                width <= 8192,
                                height <= 8192,
                        ;
                    }
                    (width as u64) * (height as u64) <= MAX_IMAGE_PIXELS
                };
                if fits {
                    Content::Image { bytes, kind }
                } else {
                    Content::Unsupported(
                        "Unsupported or oversized image (maximum 16 megapixels, 8192 pixels per side)".to_owned(),
                    )
                }
            },
            None => Content::Unsupported(
                "Unsupported or oversized image (maximum 16 megapixels, 8192 pixels per side)".to_owned(),
            ),
        };
    }
    let markdown = markdown_extension(ext);
    text_content(bytes, truncated, markdown)
}

/// The text preview of the kept bytes of a file: refused when they hold a
/// NUL byte or are not UTF-8, except that a character cut by the read limit
/// is dropped.
pub fn text_content(bytes: Vec<u8>, truncated: bool, markdown: bool) -> (r: Content)
    ensures
        text_outcome_ok(r, bytes@, truncated, markdown),
{
    let mut i: usize = 0;
    while i < bytes.len()
        invariant
            i <= bytes@.len(),
            forall|k: int| 0 <= k < i ==> bytes@[k] != 0,
        decreases bytes@.len() - i,
    {
        if bytes[i] == 0 {
            proof {
                assert(bytes@.contains(0u8));
            }
            return Content::Unsupported("Binary preview is not available for this file type".to_owned());
        }
        i += 1;
    }
    let (valid, incomplete) = utf8_prefix(bytes.as_slice());
    let n = bytes.len();
    proof {
        lemma_valid_prefix_len(bytes@, valid as int);
        assert(bytes@.take(n as int) =~= bytes@);
        if vstd::utf8::valid_utf8(bytes@) {
            assert(valid == n);
        }
    }
    if valid != n && !(truncated && incomplete) {
        return Content::Unsupported("This file is not UTF-8 text; binary preview is unavailable".to_owned());
    }
    let ghost kept = bytes@;
    let mut bytes = bytes;
    bytes.truncate(valid);
    proof {
        assert(bytes@ =~= kept.take(valid as int));
        assert(kept.take(n as int) =~= kept);
    }
    let text = match crate::document::string_from_utf8(bytes) {
        Some(t) => t,
        None => String::new(),
    };
    Content::Text { text, truncated, markdown }
}

/// The request path of a folder entry.
pub fn entry_path(relative: &str, name: &str) -> (r: String)
    ensures
        r@ == (if relative@.len() == 0 {
            name@
        } else {
            relative@ + seq!['/'] + name@
        }),
{
    if relative.is_empty() {
        return name.to_owned();
    }
    let mut chars = crate::text::chars_of(relative);
    chars.push('/');
    let tail = crate::text::chars_of(name);
    let mut i: usize = 0;
    let ghost head = chars@;
    while i < tail.len()
        invariant
            i <= tail@.len(),
            chars@ == head + tail@.take(i as int),
        decreases tail@.len() - i,
    {
        chars.push(tail[i]);
        i += 1;
        proof {
            assert(chars@ =~= head + tail@.take(i as int));
        }
    }
    proof {
        assert(tail@.take(tail@.len() as int) =~= tail@);
    }
    crate::text::string_from_chars(&chars)
}

/// A folder listing in listing order.
pub fn listing(entries: Vec<Entry>, truncated: bool) -> (r: Listing)
    ensures
        r.entries@.to_multiset() == entries@.to_multiset(),
        in_listing_order(r.entries@),
        r.truncated == truncated,
{
    Listing { entries: sort_entries(entries), truncated }
}

} // verus!

verus! {

proof fn lemma_ff_run_same(b1: Seq<u8>, b2: Seq<u8>, from: int, i: int)
    requires
        b1.len() == b2.len(),
        0 <= from <= i,
        forall|j: int| from <= j < b1.len() ==> b1[j] == b2[j],
    ensures
        ff_run_end(b1, i) == ff_run_end(b2, i),
    decreases b1.len() - i,
{
    if 0 <= i < b1.len() && b1[i] == 0xff {
        lemma_ff_run_same(b1, b2, from, i + 1);
    }
}

/// The scan from `offset` reads no byte before it.
proof fn lemma_scan_reads_from(b1: Seq<u8>, b2: Seq<u8>, offset: int)
    requires
        b1.len() == b2.len(),
        0 <= offset,
        forall|j: int| offset <= j < b1.len() ==> b1[j] == b2[j],
    ensures
        jpeg_scan(b1, offset) == jpeg_scan(b2, offset),
    decreases b1.len() - offset,
{
    if offset < b1.len() && b1[offset] == 0xff {
        lemma_ff_run_same(b1, b2, offset, offset);
        lemma_ff_run_end(b1, offset);
        let m = ff_run_end(b1, offset);
        if m < b1.len() {
            let marker = b1[m];
            let at = m + 1;
            if marker == 0x01 || (0xd0 <= marker <= 0xd7) {
                lemma_scan_reads_from(b1, b2, at);
            } else if at + 2 <= b1.len() {
                let length = be16(b1[at], b1[at + 1]);
                if length >= 2 && at + length <= b1.len() && !is_frame_marker(marker) {
                    lemma_scan_reads_from(b1, b2, at + length);
                }
            }
        }
    }
}

/// A JPEG whose first segment is a frame header declares the size that the
/// header holds, height then width, each big-endian. The frame headers are
/// exactly the segments marked 0xC0 to 0xC3, 0xC5 to 0xC7, 0xC9 to 0xCB and
/// 0xCD to 0xCF.
pub proof fn law_frame_header_gives_size(b: Seq<u8>)
    requires
        b.len() >= 6,
        b[0] == 0xff && b[1] == 0xd8 && b[2] == 0xff,
        (0xc0 <= b[3] <= 0xc3) || (0xc5 <= b[3] <= 0xc7) || (0xc9 <= b[3] <= 0xcb) || (0xcd <= b[3] <= 0xcf),
        8 <= b[4] * 256 + b[5],
        4 + b[4] * 256 + b[5] <= b.len(),
    ensures
        image_header(b) == Some(
            (ImageKind::Jpeg, (b[9] * 256 + b[10]) as u32, (b[7] * 256 + b[8]) as u32),
        ),
{
    lemma_ff_run_end(b, 2);
    assert(ff_run_end(b, 3) == 3);
    assert(ff_run_end(b, 2) == 3);
    assert(!(b.take(8) == png_signature())) by {
        if b.len() >= 8 {
            assert(b.take(8)[0] != png_signature()[0]);
        }
    }
}

/// Any other segment before the frame header is skipped whatever it holds:
/// two JPEGs that differ only inside the payload of a first segment whose
/// marker is not a frame header (nor a marker without payload, the start of
/// scan or the end of image) declare the same size.
pub proof fn law_other_segments_are_skipped(b1: Seq<u8>, b2: Seq<u8>)
    requires
        b1.len() == b2.len(),
        b1.len() >= 6,
        b1[0] == 0xff && b1[1] == 0xd8 && b1[2] == 0xff,
        !((0xc0 <= b1[3] <= 0xc3) || (0xc5 <= b1[3] <= 0xc7) || (0xc9 <= b1[3] <= 0xcb) || (0xcd <= b1[3]
            <= 0xcf)),
        !(b1[3] == 0x01 || (0xd0 <= b1[3] <= 0xda) || b1[3] == 0xff),
        2 <= b1[4] * 256 + b1[5],
        4 + b1[4] * 256 + b1[5] <= b1.len(),
        forall|j: int| 0 <= j < b1.len() && (j < 6 || j >= 4 + b1[4] * 256 + b1[5]) ==> b1[j] == b2[j],
    ensures
        image_header(b1) == image_header(b2),
{
    let length = b1[4] * 256 + b1[5];
    assert(b2[0] == 0xff && b2[1] == 0xd8 && b2[2] == 0xff && b2[3] == b1[3] && b2[4] == b1[4] && b2[5]
        == b1[5]);
    lemma_ff_run_end(b1, 2);
    lemma_ff_run_end(b2, 2);
    assert(ff_run_end(b1, 3) == 3);
    assert(ff_run_end(b1, 2) == 3);
    assert(ff_run_end(b2, 3) == 3);
    assert(ff_run_end(b2, 2) == 3);
    lemma_scan_reads_from(b1, b2, 4 + length);
    assert(jpeg_scan(b1, 2) == jpeg_scan(b1, 4 + length));
    assert(jpeg_scan(b2, 2) == jpeg_scan(b2, 4 + length));
    if b1.len() >= 8 {
        assert(b1.take(8)[0] == 0xff);
        assert(png_signature()[0] == 0x89);
    }
    if b2.len() >= 8 {
        assert(b2.take(8)[0] == 0xff);
        assert(png_signature()[0] == 0x89);
    }
}

} // verus!
