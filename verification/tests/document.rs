use vintage::document::{
    image_targets, prepare, resolve_image_target, Block, CellAlign, Inline, Span, MAX_BLOCKS,
};

fn inline_text(block: &Block) -> &str {
    match block {
        Block::Paragraph { inlines } => match &inlines[0] {
            Inline::Text(span) => &span.text,
            _ => panic!("text expected"),
        },
        _ => panic!("paragraph expected"),
    }
}

#[test]
fn headings_lists_quotes_and_fences_preserve_source() {
    let text = "# Heading\n\nfirst\nsecond\n- item\n> quote\n```rust\nlet x = 1;\n```\n---";
    let doc = prepare(text, true);
    assert!(matches!(
        doc.blocks.as_slice(),
        [
            Block::Heading { level: 1, .. },
            Block::Paragraph { .. },
            Block::List { .. },
            Block::Quote { .. },
            Block::Code { .. },
            Block::Rule
        ]
    ));
    assert_eq!(inline_text(&doc.blocks[1]), "first second");
    let Block::Code {
        language,
        text: code,
    } = &doc.blocks[4]
    else {
        panic!("code expected");
    };
    assert_eq!(language.as_deref(), Some("rust"));
    assert_eq!(code.trim_end(), "let x = 1;");
    assert_eq!(doc.lines.join("\n"), text);
}

#[test]
fn inline_styles_links_and_tables_are_structured() {
    let doc = prepare(
        "# Title\n\n**bold** *it* ~~gone~~ `code` [site](https://example.net)\n\n\
         | a | b |\n|---|:-:|\n| 1 | 2 |\n",
        true,
    );
    let Block::Paragraph { inlines } = &doc.blocks[1] else {
        panic!("paragraph expected");
    };
    let styles: Vec<(bool, bool, bool, bool, Option<&str>)> = inlines
        .iter()
        .filter_map(|inline| match inline {
            Inline::Text(span) => Some((
                span.bold,
                span.italic,
                span.strike,
                span.code,
                span.link.as_deref(),
            )),
            _ => None,
        })
        .collect();
    assert!(styles.contains(&(true, false, false, false, None)));
    assert!(styles.contains(&(false, true, false, false, None)));
    assert!(styles.contains(&(false, false, true, false, None)));
    assert!(styles.contains(&(false, false, false, true, None)));
    assert!(styles.contains(&(false, false, false, false, Some("https://example.net"))));
    let Block::Table { aligns, head, rows } = &doc.blocks[2] else {
        panic!("table expected");
    };
    assert_eq!(aligns, &vec![CellAlign::Default, CellAlign::Center]);
    assert_eq!(head.len(), 2);
    assert_eq!(rows.len(), 1);
}

#[test]
fn task_lists_nesting_and_images_are_kept() {
    let doc = prepare(
        "- [x] done\n- [ ] open\n  - nested\n\n> ![pic](img/pic.png)\n",
        true,
    );
    let Block::List { ordered, items, .. } = &doc.blocks[0] else {
        panic!("list expected");
    };
    assert!(!ordered);
    assert_eq!(items[0].checked, Some(true));
    assert_eq!(items[1].checked, Some(false));
    assert_eq!(inline_text(&items[1].blocks[0]), "open");
    let Block::List { items: nested, .. } = &items[1].blocks[1] else {
        panic!("nested list expected");
    };
    assert_eq!(nested.len(), 1);
    let Block::Quote { blocks } = &doc.blocks[1] else {
        panic!("quote expected");
    };
    let Block::Paragraph { inlines } = &blocks[0] else {
        panic!("paragraph expected");
    };
    assert_eq!(
        inlines[0],
        Inline::Image {
            target: "img/pic.png".into(),
            alt: "pic".into()
        }
    );
    assert_eq!(image_targets(&doc), vec!["img/pic.png".to_owned()]);
}

#[test]
fn tight_items_keep_styled_content_and_html_images_are_lifted() {
    let doc = prepare(
        "- **Runs real terminals.** Each pane owns a PTY.\n- plain tail\n",
        true,
    );
    let Block::List { items, .. } = &doc.blocks[0] else {
        panic!("list expected");
    };
    let Block::Paragraph { inlines } = &items[0].blocks[0] else {
        panic!("tight item paragraph expected");
    };
    assert_eq!(
        inlines[0],
        Inline::Text(Span {
            text: "Runs real terminals.".into(),
            bold: true,
            italic: false,
            strike: false,
            code: false,
            link: None,
        })
    );
    assert_eq!(inline_text(&items[0].blocks[0]), "Runs real terminals.");
    assert_eq!(inline_text(&items[1].blocks[0]), "plain tail");
    let doc = prepare(
        "<p align=\"center\">\n  <img src=\"./assets/hero.svg\" width=\"100%\" alt=\"Hero\">\n</p>\n",
        true,
    );
    let Block::Paragraph { inlines } = &doc.blocks[0] else {
        panic!("image paragraph expected");
    };
    assert_eq!(
        inlines[0],
        Inline::Image {
            target: "./assets/hero.svg".into(),
            alt: "Hero".into()
        }
    );
    assert_eq!(image_targets(&doc), vec!["./assets/hero.svg".to_owned()]);
}

#[test]
fn oversized_and_unicode_documents_are_bounded() {
    let doc = prepare(&"日".repeat(5000), true);
    assert!(doc.shortened);
    assert_eq!(doc.lines[0].chars().count(), 4097);
    let doc = prepare(&"line\n".repeat(9000), true);
    assert!(doc.shortened);
    assert_eq!(doc.lines.len(), 8000);
    assert_eq!(prepare("", true).lines, vec![String::new()]);
    let long = "para\n\n".repeat(3000);
    let doc = prepare(&long, true);
    assert!(doc.blocks.len() <= MAX_BLOCKS);
    assert!(doc.shortened);
    assert!(prepare("# skip\n", false).blocks.is_empty());
}

#[test]
fn image_targets_resolve_only_inside_the_workspace() {
    let base = "docs/readme.md";
    assert_eq!(
        resolve_image_target(base, "pic.png").as_deref(),
        Some("docs/pic.png")
    );
    assert_eq!(
        resolve_image_target(base, "./pic.png").as_deref(),
        Some("docs/pic.png")
    );
    assert_eq!(
        resolve_image_target(base, "sub/%20space.png").as_deref(),
        Some("docs/sub/ space.png")
    );
    assert_eq!(
        resolve_image_target("readme.md", "pic.png").as_deref(),
        Some("pic.png")
    );
    for target in [
        "",
        "/abs.png",
        "../escape.png",
        "https://example.net/x.png",
        "data:image/png;base64,AAAA",
        "mailto:x@y.z",
        "a\0b.png",
    ] {
        assert!(resolve_image_target(base, target).is_none(), "{target}");
    }
}
