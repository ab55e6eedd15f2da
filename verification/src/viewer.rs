//! The images of a markdown file in the file viewer: which workspace
//! images to fetch, within a count and a byte budget, and what became of
//! each. Fetching is I/O and happens outside; this state machine decides.
use vstd::prelude::*;
use crate::document::{image_path, resolve_image_target};
use crate::text::str_eq;
use crate::tree::{errors_view, lookup, set_error_entry, set_key};
use crate::document::Document;
use crate::files::Content;
use crate::markdown::{is_prepared, prepare};

verus! {

/// At most this many image references of a document are fetched.
pub const MAX_MARKDOWN_IMAGES: usize = 32;

/// The bytes of images one document may load in all.
pub const MAX_MARKDOWN_IMAGE_BYTES: u64 = 64 * 1024 * 1024;

/// The folder of a workspace file: everything before its last `/`.
pub open spec fn folder_of(path: Seq<char>) -> Seq<char> {
    match last_slash(path, path.len() as int) {
        Some(k) => path.take(k),
        None => Seq::empty(),
    }
}

/// The position of the last `/` before `end`.
pub open spec fn last_slash(s: Seq<char>, end: int) -> Option<int>
    decreases end,
{
    if end <= 0 {
        None
    } else if s[end - 1] == '/' {
        Some(end - 1)
    } else {
        last_slash(s, end - 1)
    }
}

/// The folder of the file `path`, where its relative images are looked up.
pub fn base_dir(path: &str) -> (r: String)
    ensures
        r@ == folder_of(path@),
{
    let chars = crate::text::chars_of(path);
    let n = chars.len();
    let mut end: usize = n;
    while end > 0
        invariant
            end <= n,
            n == chars@.len(),
            chars@ == path@,
            last_slash(path@, n as int) == last_slash(path@, end as int),
        decreases end,
    {
        if chars[end - 1] == '/' {
            let mut out: Vec<char> = Vec::new();
            let mut i: usize = 0;
            while i < end - 1
                invariant
                    i <= end - 1,
                    end <= n,
                    n == chars@.len(),
                    out@ == chars@.take(i as int),
                decreases end - 1 - i,
            {
                out.push(chars[i]);
                i += 1;
                proof {
                    assert(out@ =~= chars@.take(i as int));
                }
            }
            return crate::text::string_from_chars(&out);
        }
        end -= 1;
    }
    String::new()
}

/// The document a preview shows: text is prepared for display, and parsed
/// when it is markdown; images and refusals show none.
pub fn preview_document(content: &Content) -> (r: Option<Document>)
    ensures
        match content {
            Content::Text { text, markdown, .. } => r matches Some(d) && is_prepared(text@, *markdown, d),
            _ => r is None,
        },
{
    match content {
        Content::Text { text, markdown, .. } => Some(prepare(text.as_str(), *markdown)),
        _ => None,
    }
}

/// The abstract state: images loaded, images refused with the reason, and
/// the bytes left in the budget.
pub struct ImagesView {
    pub loaded: Seq<Seq<char>>,
    pub errors: Seq<(Seq<char>, Seq<char>)>,
    pub budget: u64,
}

/// The image at `p` is loaded or was refused.
pub open spec fn known(v: ImagesView, p: Seq<char>) -> bool {
    v.loaded.contains(p) || lookup(v.errors, p) is Some
}

/// The images to fetch for these targets of a document in the folder
/// `base`, in order, and the state after: a target that resolves to no
/// workspace path is skipped, as is a path already loaded or refused; with
/// the budget spent a path is refused at once.
pub open spec fn plan_images(v: ImagesView, base: Seq<char>, targets: Seq<Seq<char>>) -> (ImagesView, Seq<Seq<char>>)
    decreases targets.len(),
{
    if targets.len() == 0 {
        (v, Seq::empty())
    } else {
        let (w, out) = plan_images(v, base, targets.drop_last());
        match image_path(base, targets.last()) {
            None => (w, out),
            Some(p) => if known(w, p) {
                (w, out)
            } else if w.budget == 0 {
                (ImagesView { errors: set_key(w.errors, p, "Image limit reached"@), ..w }, out)
            } else {
                (w, out.push(p))
            },
        }
    }
}

/// What fetching an image gave.
pub enum ImageOutcome {
    /// An image of this many bytes.
    Image(u64),
    /// A preview that is no image, with its reason.
    Unsupported(String),
    /// The fetch failed, or gave text.
    Failed,
}

/// The state after an image for `path` arrived, and whether it is kept: an
/// image within the budget is kept and spends its size; a larger one, an
/// unsupported file or a failure is refused with its reason.
pub open spec fn after_arrival(v: ImagesView, path: Seq<char>, outcome: ImageOutcome) -> (ImagesView, bool) {
    match outcome {
        ImageOutcome::Image(size) => if size > v.budget {
            (ImagesView { errors: set_key(v.errors, path, "Image limit reached"@), ..v }, false)
        } else {
            (
                ImagesView {
                    loaded: if v.loaded.contains(path) {
                        v.loaded
                    } else {
                        v.loaded.push(path)
                    },
                    budget: (v.budget - size) as u64,
                    ..v
                },
                true,
            )
        },
        ImageOutcome::Unsupported(m) => (ImagesView { errors: set_key(v.errors, path, m@), ..v }, false),
        ImageOutcome::Failed => (ImagesView { errors: set_key(v.errors, path, "Cannot load image"@), ..v }, false),
    }
}

pub open spec fn strings_view(s: Seq<String>) -> Seq<Seq<char>> {
    s.map_values(|x: String| x@)
}

/// The markdown images of one opened file.
pub struct MarkdownImages {
    loaded: Vec<String>,
    errors: Vec<(String, String)>,
    budget: u64,
}

impl View for MarkdownImages {
    type V = ImagesView;

    closed spec fn view(&self) -> ImagesView {
        ImagesView { loaded: strings_view(self.loaded@), errors: errors_view(self.errors@), budget: self.budget }
    }
}

impl MarkdownImages {
    /// Nothing loaded or refused, the whole budget left.
    pub fn new() -> (r: Self)
        ensures
            r@.loaded.len() == 0,
            r@.errors.len() == 0,
            r@.budget == MAX_MARKDOWN_IMAGE_BYTES,
    {
        MarkdownImages { loaded: Vec::new(), errors: Vec::new(), budget: MAX_MARKDOWN_IMAGE_BYTES }
    }

    /// The bytes left in the budget.
    pub fn budget(&self) -> (r: u64)
        ensures
            r == self@.budget,
    {
        self.budget
    }

    /// The image at `path` is loaded.
    pub fn is_loaded(&self, path: &str) -> (r: bool)
        ensures
            r == self@.loaded.contains(path@),
    {
        let n = self.loaded.len();
        let mut i: usize = 0;
        while i < n
            invariant
                n == self.loaded@.len(),
                i <= n,
                forall|j: int| 0 <= j < i ==> self.loaded@[j]@ != path@,
            decreases n - i,
        {
            if str_eq(self.loaded[i].as_str(), path) {
                proof {
                    assert(self@.loaded[i as int] == path@);
                }
                return true;
            }
            i += 1;
        }
        proof {
            if self@.loaded.contains(path@) {
                let j = choose|j: int| 0 <= j < n && self@.loaded[j] == path@;
                assert(self.loaded@[j]@ == path@);
            }
        }
        false
    }

    /// Why the image at `path` was refused, if it was.
    pub fn error(&self, path: &str) -> (r: Option<&str>)
        ensures
            match r {
                Some(e) => lookup(self@.errors, path@) == Some(e@),
                None => lookup(self@.errors, path@) is None,
            },
    {
        let ghost s = self@.errors;
        let mut i: usize = self.errors.len();
        while i > 0
            invariant
                i <= s.len(),
                s == errors_view(self.errors@),
                forall|j: int| i <= j < s.len() ==> s[j].0 != path@,
            decreases i,
        {
            if str_eq(self.errors[i - 1].0.as_str(), path) {
                proof {
                    crate::tree::lemma_lookup_tail(s, path@, i as int);
                    assert(s.take(i as int).last() == s[i - 1]);
                }
                return Some(self.errors[i - 1].1.as_str());
            }
            i -= 1;
        }
        proof {
            crate::tree::lemma_lookup_tail(s, path@, 0);
        }
        None
    }

    fn is_known(&self, path: &str) -> (r: bool)
        ensures
            r == known(self@, path@),
    {
        if self.is_loaded(path) {
            return true;
        }
        self.error(path).is_some()
    }

    /// Decides which of the image targets of the document in the workspace
    /// file `file` to fetch, resolving them against the file's folder; only
    /// the first `MAX_MARKDOWN_IMAGES` targets count.
    pub fn plan(&mut self, targets: &[String], file: &str) -> (r: Vec<String>)
        ensures
            ({
                let counted = if targets@.len() > MAX_MARKDOWN_IMAGES {
                    strings_view(targets@).take(MAX_MARKDOWN_IMAGES as int)
                } else {
                    strings_view(targets@)
                };
                let (v, out) = plan_images(old(self)@, folder_of(file@), counted);
                final(self)@ == v && strings_view(r@) == out
            }),
    {
        let ghost all = strings_view(targets@);
        let folder = base_dir(file);
        let base = folder.as_str();
        let n = if targets.len() > MAX_MARKDOWN_IMAGES {
            MAX_MARKDOWN_IMAGES
        } else {
            targets.len()
        };
        let mut out: Vec<String> = Vec::new();
        let mut i: usize = 0;
        while i < n
            invariant
                n <= targets@.len(),
                n == (if targets@.len() > MAX_MARKDOWN_IMAGES {
                    MAX_MARKDOWN_IMAGES as int
                } else {
                    targets@.len() as int
                }),
                all == strings_view(targets@),
                i <= n,
                (self@, strings_view(out@)) == plan_images(old(self)@, base@, all.take(i as int)),
            decreases n - i,
        {
            proof {
                assert(all.take(i + 1).drop_last() =~= all.take(i as int));
                assert(all.take(i + 1).last() == targets@[i as int]@);
            }
            let ghost before = strings_view(out@);
            if let Some(p) = resolve_image_target(base, targets[i].as_str()) {
                if !self.is_known(p.as_str()) {
                    if self.budget == 0 {
                        set_error_entry(&mut self.errors, p.as_str(), "Image limit reached".to_owned());
                    } else {
                        out.push(p);
                        proof {
                            assert(strings_view(out@) =~= before.push(p@));
                        }
                    }
                }
            }
            i += 1;
        }
        proof {
            if targets@.len() <= MAX_MARKDOWN_IMAGES {
                assert(all.take(n as int) =~= all);
            }
        }
        out
    }

    /// Takes what fetching the image at `path` gave; `true` when the image
    /// is kept.
    pub fn arrived(&mut self, path: &str, outcome: ImageOutcome) -> (keep: bool)
        ensures
            (final(self)@, keep) == after_arrival(old(self)@, path@, outcome),
    {
        match outcome {
            ImageOutcome::Image(size) => {
                if size > self.budget {
                    set_error_entry(&mut self.errors, path, "Image limit reached".to_owned());
                    false
                } else {
                    self.budget = self.budget - size;
                    if !self.is_loaded(path) {
                        self.loaded.push(path.to_owned());
                        proof {
                            assert(self@.loaded =~= old(self)@.loaded.push(path@));
                        }
                    }
                    true
                }
            },
            ImageOutcome::Unsupported(m) => {
                set_error_entry(&mut self.errors, path, m);
                false
            },
            ImageOutcome::Failed => {
                set_error_entry(&mut self.errors, path, "Cannot load image".to_owned());
                false
            },
        }
    }
}

/// The images loaded never cost more than the budget: whatever arrives,
/// the bytes spent and the bytes left add up to the budget a document
/// starts with, so the budget is never overdrawn.
pub proof fn law_budget_is_never_overdrawn(v: ImagesView, path: Seq<char>, outcome: ImageOutcome)
    ensures
        after_arrival(v, path, outcome).0.budget <= v.budget,
        after_arrival(v, path, outcome).1 ==> (outcome matches ImageOutcome::Image(size) && size <= v.budget
            && after_arrival(v, path, outcome).0.budget == v.budget - size),
{
}

} // verus!
