use vintage::files::{Content, Entry, Listing};
use vintage::viewer::{base_dir, preview_document, ImageOutcome, MarkdownImages, MAX_MARKDOWN_IMAGE_BYTES};
use vintage::tree::{is_listing_below, FileTree, Toggle, MAX_OPEN_FOLDERS};

fn entry(path: &str, directory: bool) -> Entry {
    let name = path.rsplit('/').next().unwrap().to_string();
    Entry { name, path: path.to_string(), directory, symlink: false }
}

fn notes(tree: &FileTree) -> Vec<(usize, String, String)> {
    tree.rows()
        .into_iter()
        .map(|(depth, e, note)| (depth, e.map(|e| e.path).unwrap_or_default(), note))
        .collect()
}

#[test]
fn tree_shows_loading_until_root_arrives() {
    let tree = FileTree::new();
    assert_eq!(notes(&tree), vec![(0, String::new(), "Loading…".to_string())]);
}

#[test]
fn root_failure_is_shown_in_place_of_rows() {
    let mut tree = FileTree::new();
    tree.root_arrived(Err("denied".to_string()));
    assert_eq!(notes(&tree), vec![(0, String::new(), "denied".to_string())]);
}

#[test]
fn open_folders_unfold_below_their_entry() {
    let mut tree = FileTree::new();
    tree.root_arrived(Ok(Listing { entries: vec![entry("src", true), entry("a.txt", false)], truncated: false }));
    assert_eq!(tree.toggle_directory("src", true), Toggle::Expanded);
    assert!(tree.is_expanded("src"));
    assert_eq!(
        notes(&tree),
        vec![
            (0, "src".to_string(), String::new()),
            (1, String::new(), "Loading…".to_string()),
            (0, "a.txt".to_string(), String::new()),
        ]
    );
    tree.listing_arrived("src", Ok(Listing { entries: vec![], truncated: false }));
    assert_eq!(
        notes(&tree),
        vec![
            (0, "src".to_string(), String::new()),
            (1, String::new(), "Empty folder".to_string()),
            (0, "a.txt".to_string(), String::new()),
        ]
    );
}

#[test]
fn cut_listing_gets_a_note() {
    let mut tree = FileTree::new();
    tree.root_arrived(Ok(Listing { entries: vec![entry("a", false)], truncated: true }));
    assert_eq!(
        notes(&tree),
        vec![
            (0, "a".to_string(), String::new()),
            (0, String::new(), "Folder listing limited to 2,000 entries".to_string()),
        ]
    );
}

#[test]
fn collapsing_closes_the_whole_subtree() {
    let mut tree = FileTree::new();
    tree.root_arrived(Ok(Listing { entries: vec![entry("src", true), entry("srcx", true)], truncated: false }));
    assert_eq!(tree.toggle_directory("src", true), Toggle::Expanded);
    assert_eq!(tree.toggle_directory("srcx", true), Toggle::Expanded);
    tree.listing_arrived("src", Ok(Listing { entries: vec![entry("src/lib", true)], truncated: false }));
    assert_eq!(tree.toggle_directory("src/lib", true), Toggle::Expanded);
    tree.listing_arrived("src/lib", Err("gone".to_string()));
    assert_eq!(tree.error("src/lib"), Some("gone"));
    assert_eq!(tree.toggle_directory("src", true), Toggle::Collapsed);
    assert!(!tree.is_expanded("src"));
    assert!(!tree.is_expanded("src/lib"));
    assert!(tree.is_expanded("srcx"));
    assert!(tree.listing("src").is_none());
    assert_eq!(tree.error("src/lib"), None);
}

#[test]
fn late_listing_for_closed_folder_is_dropped() {
    let mut tree = FileTree::new();
    tree.listing_arrived("gone", Ok(Listing { entries: vec![], truncated: false }));
    assert!(tree.listing("gone").is_none());
}

#[test]
fn unavailable_workspace_changes_nothing() {
    let mut tree = FileTree::new();
    assert_eq!(tree.toggle_directory("src", false), Toggle::Unavailable);
    assert!(!tree.is_expanded("src"));
}

#[test]
fn folder_limit_refuses_and_clears() {
    let mut tree = FileTree::new();
    for i in 0..MAX_OPEN_FOLDERS {
        assert_eq!(tree.toggle_directory(&format!("d{i}"), true), Toggle::Expanded);
    }
    assert_eq!(tree.toggle_directory("one-more", true), Toggle::Refused);
    assert_eq!(tree.tree_error(), Some("Collapse a folder before expanding more (128-folder limit)"));
    assert_eq!(tree.toggle_directory("d0", true), Toggle::Collapsed);
    assert_eq!(tree.tree_error(), None);
}

#[test]
fn entry_limit_refuses_large_listings() {
    let mut tree = FileTree::new();
    let many: Vec<Entry> = (0..10000).map(|i| entry(&format!("f{i}"), false)).collect();
    tree.root_arrived(Ok(Listing { entries: many, truncated: false }));
    assert_eq!(tree.toggle_directory("f1", true), Toggle::Expanded);
    tree.listing_arrived("f1", Ok(Listing { entries: vec![entry("f1/x", false)], truncated: false }));
    assert_eq!(tree.error("f1"), Some("File tree limit reached; collapse folders or refresh"));
    assert!(tree.listing("f1").is_none());
}

#[test]
fn listings_must_lie_below_their_folder() {
    let good = Listing { entries: vec![entry("a/b", false)], truncated: false };
    let bad = Listing { entries: vec![entry("a", false)], truncated: false };
    assert!(is_listing_below("a", &good));
    assert!(!is_listing_below("a", &bad));
}


#[test]
fn base_dir_is_the_folder_of_the_file() {
    assert_eq!(base_dir("docs/guide/intro.md"), "docs/guide");
    assert_eq!(base_dir("README.md"), "");
    assert_eq!(base_dir("a/"), "a");
}

#[test]
fn markdown_images_resolve_and_skip_known_ones() {
    let mut images = MarkdownImages::new();
    let targets = vec![
        "img/a.png".to_string(),
        "https://example.com/b.png".to_string(),
        "../../escape.png".to_string(),
        "img/c.png".to_string(),
    ];
    let fetch = images.plan(&targets, "docs/guide/intro.md");
    assert_eq!(fetch, vec!["docs/img/a.png".to_string(), "docs/img/c.png".to_string()]);
    assert!(images.arrived("docs/img/a.png", ImageOutcome::Image(100)));
    assert!(!images.arrived("docs/img/c.png", ImageOutcome::Unsupported("Unsupported image".to_string())));
    assert_eq!(images.budget(), MAX_MARKDOWN_IMAGE_BYTES - 100);
    assert!(images.is_loaded("docs/img/a.png"));
    assert_eq!(images.error("docs/img/c.png"), Some("Unsupported image"));
    assert!(images.plan(&targets, "docs/guide/intro.md").is_empty());
}

#[test]
fn image_budget_is_enforced() {
    let mut images = MarkdownImages::new();
    assert!(!images.arrived("big.png", ImageOutcome::Image(MAX_MARKDOWN_IMAGE_BYTES + 1)));
    assert_eq!(images.error("big.png"), Some("Image limit reached"));
    assert!(images.arrived("all.png", ImageOutcome::Image(MAX_MARKDOWN_IMAGE_BYTES)));
    assert_eq!(images.budget(), 0);
    let targets = vec!["next.png".to_string()];
    assert!(images.plan(&targets, "notes.md").is_empty());
    assert_eq!(images.error("next.png"), Some("Image limit reached"));
    assert!(!images.arrived("gone.png", ImageOutcome::Failed));
    assert_eq!(images.error("gone.png"), Some("Cannot load image"));
}

#[test]
fn only_the_first_images_of_a_document_count() {
    let mut images = MarkdownImages::new();
    let targets: Vec<String> = (0..40).map(|i| format!("i{i}.png")).collect();
    assert_eq!(images.plan(&targets, "notes.md").len(), 32);
}

#[test]
fn previews_show_documents_only_for_text() {
    let doc = preview_document(&Content::Text { text: "# Title\n\nbody".to_string(), truncated: false, markdown: true })
        .expect("text has a document");
    assert_eq!(doc.lines.len(), 3);
    assert!(!doc.blocks.is_empty());
    let plain = preview_document(&Content::Text { text: "# Title".to_string(), truncated: false, markdown: false })
        .expect("text has a document");
    assert!(plain.blocks.is_empty());
    assert!(preview_document(&Content::Unsupported("no".to_string())).is_none());
}
