use notion2pandoc::convert::{all_text_spans, convert_rich_texts, lookup_markup, plain_text, text_contents};
use notion2pandoc::notion;
use notion2pandoc::notion::{Annotations, Mention, PageId, RichText, Var};
use notion2pandoc::pandoc;
use notion2pandoc::pandoc::{Attr, Inline, MathType, Target};

fn plain() -> Annotations {
    Annotations { bold: false, italic: false, strikethrough: false, underline: false, code: false }
}

fn span(content: &str, annotations: Annotations) -> RichText {
    RichText::Text { annotations, text: notion::Text { content: content.to_string(), link: None } }
}

fn linked(content: &str, url: &str) -> RichText {
    RichText::Text {
        annotations: plain(),
        text: notion::Text {
            content: content.to_string(),
            link: Some(notion::Link { url: url.to_string() }),
        },
    }
}

fn run(spans: Vec<RichText>) -> notion::Inline {
    notion::Inline { rich_text: spans }
}

fn block(var: Var) -> notion::Block {
    notion::Block { id: 1, archived: false, var, children: None }
}

fn parent(var: Var, children: Vec<notion::Block>) -> notion::Block {
    notion::Block { id: 1, archived: false, var, children: Some(children) }
}

fn s(text: &str) -> Inline {
    Inline::Str(text.to_string())
}

fn no_attr() -> Attr {
    Attr(String::new(), vec![], vec![])
}

fn class(names: &[&str]) -> Attr {
    Attr(String::new(), names.iter().map(|n| n.to_string()).collect(), vec![])
}

fn target(url: &str) -> Target {
    Target(url.to_string(), String::new())
}

fn no_embeds() -> Vec<(String, String)> {
    vec![]
}

#[test]
fn empty_rich_text_gives_empty_inlines() {
    assert_eq!(run(vec![]).to_pandoc(), Vec::<Inline>::new());
    assert_eq!(convert_rich_texts(vec![]), Vec::<Inline>::new());
    assert_eq!(
        block(Var::Paragraph { inline: run(vec![]) }).to_pandoc(&no_embeds()),
        Some(pandoc::Block::Para(vec![]))
    );
}

#[test]
fn six_annotated_spans_nest_in_fixed_order() {
    let a = |bold, italic, underline, strikethrough, code| Annotations {
        code,
        underline,
        strikethrough,
        italic,
        bold,
    };
    let spans = vec![
        span("a", a(false, false, false, false, false)),
        span("b", a(true, false, false, false, false)),
        span("c", a(true, true, false, false, false)),
        span("d", a(true, true, true, false, false)),
        span("e", a(true, true, true, true, false)),
        span("f", a(true, true, true, true, true)),
    ];
    let strong = |x: Inline| Inline::Strong(vec![x]);
    let emph = |x: Inline| Inline::Emph(vec![x]);
    let strike = |x: Inline| Inline::Strikeout(vec![x]);
    let expect = vec![
        s("a"),
        strong(s("b")),
        emph(strong(s("c"))),
        emph(strong(s("d"))),
        strike(emph(strong(s("e")))),
        strike(emph(strong(Inline::Code(no_attr(), "f".to_string())))),
    ];
    let result = block(Var::Paragraph { inline: run(spans) }).to_pandoc(&no_embeds());
    assert_eq!(result, Some(pandoc::Block::Para(expect)));
}

#[test]
fn underline_alone_gives_emphasis() {
    let a = Annotations { underline: true, ..plain() };
    assert_eq!(span("u", a).to_pandoc(), Inline::Emph(vec![s("u")]));
    let a = Annotations { strikethrough: true, ..plain() };
    assert_eq!(span("x", a).to_pandoc(), Inline::Strikeout(vec![s("x")]));
    let a = Annotations { code: true, ..plain() };
    assert_eq!(span("c", a).to_pandoc(), Inline::Code(no_attr(), "c".to_string()));
}

#[test]
fn annotate_wraps_any_inline() {
    let a = Annotations { bold: true, strikethrough: true, ..plain() };
    assert_eq!(
        RichText::annotate(Inline::Space, &a),
        Inline::Strikeout(vec![Inline::Strong(vec![Inline::Space])])
    );
    assert_eq!(RichText::annotate(Inline::Space, &plain()), Inline::Space);
}

#[test]
fn link_goes_around_the_styled_text() {
    let r = RichText::Text {
        annotations: Annotations { bold: true, ..plain() },
        text: notion::Text {
            content: "go".to_string(),
            link: Some(notion::Link { url: "https://e.org".to_string() }),
        },
    };
    assert_eq!(
        r.to_pandoc(),
        Inline::Link(no_attr(), vec![Inline::Strong(vec![s("go")])], target("https://e.org"))
    );
    assert_eq!(s("x").to_link("u".to_string()), Inline::Link(no_attr(), vec![s("x")], target("u")));
}

#[test]
fn mention_of_a_page_carries_its_id() {
    let id = 0xa1a2a3a4b1b2c1c2d1d2d3d4d5d6d7d8u128;
    let r = RichText::Mention {
        plain_text: "Other page".to_string(),
        annotations: plain(),
        mention: Mention::Page { page: PageId { id } },
    };
    let attr = Attr(
        String::new(),
        vec!["link_to_page".to_string()],
        vec![("id".to_string(), "a1a2a3a4-b1b2-c1c2-d1d2-d3d4d5d6d7d8".to_string())],
    );
    assert_eq!(r.to_pandoc(), Inline::Span(attr, vec![]));
}

#[test]
fn other_mentions_give_their_plain_text() {
    let r = RichText::Mention {
        plain_text: "2024-01-01".to_string(),
        annotations: Annotations { italic: true, ..plain() },
        mention: Mention::Date,
    };
    assert_eq!(r.to_pandoc(), Inline::Emph(vec![s("2024-01-01")]));
    let r = RichText::Mention {
        plain_text: "@ann".to_string(),
        annotations: Annotations { code: true, bold: true, ..plain() },
        mention: Mention::User,
    };
    assert_eq!(
        r.to_pandoc(),
        Inline::Span(class(&["code"]), vec![Inline::Strong(vec![s("@ann")])])
    );
}

#[test]
fn equation_span_gives_inline_math() {
    let r = RichText::Equation {
        annotations: plain(),
        equation: notion::Equation { expression: "x^2".to_string() },
    };
    assert_eq!(r.to_pandoc(), Inline::Math(MathType::InlineMath, "x^2".to_string()));
    let r = RichText::Equation {
        annotations: Annotations { code: true, strikethrough: true, ..plain() },
        equation: notion::Equation { expression: "y".to_string() },
    };
    assert_eq!(
        r.to_pandoc(),
        Inline::Span(
            class(&["code"]),
            vec![Inline::Strikeout(vec![Inline::Math(MathType::InlineMath, "y".to_string())])]
        )
    );
}

#[test]
fn links_to_one_target_merge() {
    let spans = vec![span("see ", plain()), linked("a", "u"), linked("b", "u")];
    assert_eq!(
        run(spans).to_pandoc(),
        vec![s("see "), Inline::Link(no_attr(), vec![s("a"), s("b")], target("u"))]
    );
}

#[test]
fn what_follows_a_link_is_kept() {
    let spans = vec![linked("a", "u"), linked("b", "v"), span(" tail", plain())];
    assert_eq!(
        run(spans).to_pandoc(),
        vec![
            Inline::Link(no_attr(), vec![s("a")], target("u")),
            Inline::Link(no_attr(), vec![s("b")], target("v")),
            s(" tail"),
        ]
    );
    let spans = vec![linked("a", "u"), span("b", plain())];
    assert_eq!(
        run(spans).to_pandoc(),
        vec![Inline::Link(no_attr(), vec![s("a")], target("u")), s("b")]
    );
    let spans = vec![linked("a", "u"), span("b", plain()), linked("c", "u")];
    assert_eq!(
        run(spans).to_pandoc(),
        vec![
            Inline::Link(no_attr(), vec![s("a")], target("u")),
            s("b"),
            Inline::Link(no_attr(), vec![s("c")], target("u")),
        ]
    );
    let spans = vec![linked("a", "u"), linked("b", "v")];
    assert_eq!(convert_rich_texts(spans).len(), 2);
}

#[test]
fn headings_go_one_level_down() {
    let h = |var: Var| block(var).to_pandoc(&no_embeds());
    assert_eq!(
        h(Var::Heading1 { inline: run(vec![span("t", plain())]) }),
        Some(pandoc::Block::Header(2, no_attr(), vec![s("t")]))
    );
    assert_eq!(
        h(Var::Heading2 { inline: run(vec![]) }),
        Some(pandoc::Block::Header(3, no_attr(), vec![]))
    );
    assert_eq!(
        h(Var::Heading3 { inline: run(vec![]) }),
        Some(pandoc::Block::Header(4, no_attr(), vec![]))
    );
}

#[test]
fn quote_holds_its_text_and_children() {
    let q = parent(
        Var::Quote { inline: run(vec![span("q", plain())]) },
        vec![
            block(Var::Divider),
            block(Var::TableOfContents),
            block(Var::Paragraph { inline: run(vec![span("p", plain())]) }),
        ],
    );
    assert!(q.is_convertible());
    assert_eq!(
        q.to_pandoc(&no_embeds()),
        Some(pandoc::Block::BlockQuote(vec![
            pandoc::Block::Plain(vec![s("q")]),
            pandoc::Block::HorizontalRule,
            pandoc::Block::Para(vec![s("p")]),
        ]))
    );
    let q = block(Var::Quote { inline: run(vec![]) });
    assert_eq!(
        q.to_pandoc(&no_embeds()),
        Some(pandoc::Block::BlockQuote(vec![pandoc::Block::Plain(vec![])]))
    );
}

#[test]
fn callout_is_a_tagged_container() {
    let c = block(Var::Callout {
        callout: notion::Callout {
            rich_text: vec![span("note", plain())],
            icon: notion::Icon::Emoji { emoji: "!".to_string() },
        },
    });
    assert_eq!(
        c.to_pandoc(&no_embeds()),
        Some(pandoc::Block::Div(class(&["callout"]), vec![pandoc::Block::Plain(vec![s("note")])]))
    );
}

#[test]
fn code_block_carries_language_and_text() {
    let code = |spans: Vec<RichText>| {
        block(Var::Code {
            code: notion::Code { rich_text: spans, caption: vec![], language: "rust".to_string() },
        })
    };
    assert_eq!(
        code(vec![span("fn main() {}", plain())]).to_pandoc(&no_embeds()),
        Some(pandoc::Block::CodeBlock(class(&["rust"]), "fn main() {}".to_string()))
    );
    assert_eq!(
        code(vec![]).to_pandoc(&no_embeds()),
        Some(pandoc::Block::CodeBlock(class(&["rust"]), String::new()))
    );
    assert!(code(vec![span("a", plain())]).is_convertible());
    assert!(!code(vec![span("a", plain()), span("b", plain())]).is_convertible());
    let mention = RichText::Mention {
        plain_text: "m".to_string(),
        annotations: plain(),
        mention: Mention::User,
    };
    assert!(!code(vec![mention]).is_convertible());
}

#[test]
fn plain_text_joins_the_contents() {
    let spans = || vec![span("ab", plain()), span("", plain()), span("cd", plain())];
    assert!(all_text_spans(&spans()));
    assert_eq!(text_contents(spans()), vec!["ab", "", "cd"]);
    assert_eq!(plain_text(spans()), "abcd");
    assert_eq!(plain_text(vec![]), "");
    let equation = RichText::Equation {
        annotations: plain(),
        equation: notion::Equation { expression: "x".to_string() },
    };
    assert!(!all_text_spans(&vec![span("a", plain()), equation]));
}

#[test]
fn equation_block_is_display_math() {
    let e = block(Var::Equation { equation: notion::Equation { expression: "e=mc^2".to_string() } });
    assert_eq!(
        e.to_pandoc(&no_embeds()),
        Some(pandoc::Block::Para(vec![Inline::Math(MathType::DisplayMath, "e=mc^2".to_string())]))
    );
}

fn external(url: &str, caption: Vec<RichText>) -> notion::File {
    notion::File::External { caption, external: notion::ExternalFileLink { url: url.to_string() } }
}

fn hosted(url: &str, caption: Vec<RichText>) -> notion::File {
    notion::File::File { caption, file: notion::FileLink { url: url.to_string(), expiry_time: 0 } }
}

#[test]
fn image_and_files_link_to_their_url() {
    assert_eq!(
        block(Var::Image { file: external("i.png", vec![span("cap", plain())]) }).to_pandoc(&no_embeds()),
        Some(pandoc::Block::Para(vec![Inline::Image(
            class(&["external"]),
            vec![s("cap")],
            target("i.png")
        )]))
    );
    assert_eq!(
        block(Var::Image { file: hosted("h.png", vec![]) }).to_pandoc(&no_embeds()),
        Some(pandoc::Block::Para(vec![Inline::Image(class(&["internal"]), vec![], target("h.png"))]))
    );
    assert_eq!(
        block(Var::Video { file: hosted("v.mp4", vec![]) }).to_pandoc(&no_embeds()),
        Some(pandoc::Block::Para(vec![Inline::Link(
            class(&["video", "internal"]),
            vec![s("v.mp4")],
            target("v.mp4")
        )]))
    );
    assert_eq!(
        block(Var::File { file: external("f.zip", vec![span("zip", plain())]) }).to_pandoc(&no_embeds()),
        Some(pandoc::Block::Para(vec![Inline::Link(
            class(&["file", "external"]),
            vec![s("zip")],
            target("f.zip")
        )]))
    );
    assert_eq!(
        block(Var::PDF { file: external("d.pdf", vec![]) }).to_pandoc(&no_embeds()),
        Some(pandoc::Block::Para(vec![Inline::Link(
            class(&["pdf", "external"]),
            vec![s("d.pdf")],
            target("d.pdf")
        )]))
    );
    assert_eq!(
        notion::Block::unpack_file(hosted("h", vec![])),
        (vec![], "h".to_string(), "internal".to_string())
    );
}

#[test]
fn embed_uses_resolved_markup_or_falls_back_to_a_link() {
    let embed = |url: &str| notion::Embed { caption: vec![], url: url.to_string() };
    let embeds = vec![
        ("https://a".to_string(), "<iframe a>".to_string()),
        ("https://b".to_string(), "<iframe b>".to_string()),
        ("https://a".to_string(), "<iframe later>".to_string()),
    ];
    assert_eq!(
        block(Var::Embed { embed: embed("https://a") }).to_pandoc(&embeds),
        Some(pandoc::Block::RawBlock(pandoc::Format("html".to_string()), "<iframe a>".to_string()))
    );
    assert_eq!(
        block(Var::Bookmark { embed: embed("https://b") }).to_pandoc(&embeds),
        Some(pandoc::Block::RawBlock(pandoc::Format("html".to_string()), "<iframe b>".to_string()))
    );
    assert_eq!(
        block(Var::Bookmark { embed: embed("https://c") }).to_pandoc(&embeds),
        Some(pandoc::Block::Para(vec![Inline::Link(
            class(&["embed"]),
            vec![s("https://c")],
            target("https://c")
        )]))
    );
    assert_eq!(lookup_markup(&embeds, &"https://b".to_string()), Some("<iframe b>".to_string()));
    assert_eq!(lookup_markup(&embeds, &"https://x".to_string()), None);
    assert_eq!(lookup_markup(&vec![], &"https://a".to_string()), None);
}

#[test]
fn link_preview_links_to_itself() {
    let b = block(Var::LinkPreview { link_preview: notion::Link { url: "https://p".to_string() } });
    assert_eq!(
        b.to_pandoc(&no_embeds()),
        Some(pandoc::Block::Para(vec![Inline::Link(
            no_attr(),
            vec![s("https://p")],
            target("https://p")
        )]))
    );
}

#[test]
fn link_to_page_carries_the_page_id() {
    let id = 0x0123456789abcdef0123456789abcdefu128;
    let b = block(Var::LinkToPage { link_to_page: notion::LinkToPage::PageId { page_id: id } });
    let attr = Attr(
        String::new(),
        vec!["link_to_page".to_string()],
        vec![("id".to_string(), "01234567-89ab-cdef-0123-456789abcdef".to_string())],
    );
    assert_eq!(b.to_pandoc(&no_embeds()), Some(pandoc::Block::Div(attr, vec![])));
    let b = block(Var::LinkToPage { link_to_page: notion::LinkToPage::DatabaseId { database_id: id } });
    assert_eq!(b.to_pandoc(&no_embeds()), None);
}

#[test]
fn suppressed_blocks_give_nothing() {
    assert_eq!(block(Var::TableOfContents).to_pandoc(&no_embeds()), None);
    assert_eq!(block(Var::Unsupported).to_pandoc(&no_embeds()), None);
    assert_eq!(block(Var::Divider).to_pandoc(&no_embeds()), Some(pandoc::Block::HorizontalRule));
    assert!(block(Var::Unsupported).is_convertible());
}

fn row(cells: Vec<Vec<RichText>>) -> notion::Block {
    block(Var::TableRow { table_row: notion::TableRow { cells } })
}

fn cell(text: &str) -> pandoc::Cell {
    pandoc::Cell(
        no_attr(),
        pandoc::Alignment::AlignDefault,
        pandoc::RowSpan(1),
        pandoc::ColSpan(1),
        vec![pandoc::Block::Plain(vec![s(text)])],
    )
}

fn table(width: u64, header: bool, rows: Option<Vec<notion::Block>>) -> notion::Block {
    notion::Block {
        id: 9,
        archived: false,
        var: Var::Table {
            table: notion::Table {
                table_width: width,
                has_column_header: header,
                has_row_header: false,
            },
        },
        children: rows,
    }
}

fn expected_table(width: usize, head: Vec<pandoc::Row>, body: Vec<pandoc::Row>) -> pandoc::Block {
    pandoc::Block::Table(
        no_attr(),
        pandoc::Caption(None, vec![]),
        vec![pandoc::ColSpec(pandoc::Alignment::AlignDefault, pandoc::ColWidth::ColWidthDefault); width],
        pandoc::TableHead(no_attr(), head),
        vec![pandoc::TableBody(no_attr(), pandoc::RowHeadColumns(0), vec![], body)],
        pandoc::TableFoot(no_attr(), vec![]),
    )
}

#[test]
fn table_splits_head_and_body() {
    let rows = || {
        vec![
            row(vec![vec![span("h1", plain())], vec![span("h2", plain())]]),
            row(vec![vec![span("a", plain())], vec![span("b", plain())]]),
            row(vec![vec![span("c", plain())]]),
        ]
    };
    let r = |cells: Vec<pandoc::Cell>| pandoc::Row(no_attr(), cells);
    assert_eq!(
        table(3, true, Some(rows())).to_pandoc(&no_embeds()),
        Some(expected_table(
            3,
            vec![r(vec![cell("h1"), cell("h2")])],
            vec![r(vec![cell("a"), cell("b")]), r(vec![cell("c")])]
        ))
    );
    assert_eq!(
        table(2, false, Some(rows())).to_pandoc(&no_embeds()),
        Some(expected_table(
            2,
            vec![],
            vec![r(vec![cell("h1"), cell("h2")]), r(vec![cell("a"), cell("b")]), r(vec![cell("c")])]
        ))
    );
    assert_eq!(
        table(0, false, Some(vec![])).to_pandoc(&no_embeds()),
        Some(expected_table(0, vec![], vec![]))
    );
    assert_eq!(table(2, true, None).to_pandoc(&no_embeds()), None);
}

#[test]
fn table_needs_rows_for_children() {
    assert!(table(1, true, Some(vec![row(vec![])])).is_convertible());
    assert!(table(1, true, None).is_convertible());
    assert!(!table(1, true, Some(vec![])).is_convertible());
    assert!(table(1, false, Some(vec![])).is_convertible());
    assert!(!table(1, false, Some(vec![block(Var::Divider)])).is_convertible());
    assert!(!row(vec![]).is_convertible());
}

#[test]
fn lists_render_their_items() {
    let item = |text: &str| block(Var::BulletedListItem { inline: run(vec![span(text, plain())]) });
    let to_do = |text: &str, checked: bool| {
        block(Var::ToDoListItem {
            to_do: notion::ToDo { rich_text: vec![span(text, plain())], checked },
        })
    };
    let nested = parent(
        Var::ToggleListItem { inline: run(vec![span("t", plain())]) },
        vec![block(Var::Divider)],
    );
    let list = parent(Var::BulletedList, vec![item("a"), to_do("done", true), to_do("open", false), nested]);
    assert!(list.is_convertible());
    assert_eq!(
        list.to_pandoc(&no_embeds()),
        Some(pandoc::Block::BulletList(vec![
            vec![pandoc::Block::Plain(vec![s("a")])],
            vec![pandoc::Block::Plain(vec![s("\u{2612}"), Inline::Space, s("done")])],
            vec![pandoc::Block::Plain(vec![s("\u{2610}"), Inline::Space, s("open")])],
            vec![pandoc::Block::Plain(vec![s("t")]), pandoc::Block::HorizontalRule],
        ]))
    );
    let numbered = parent(
        Var::NumberedList,
        vec![block(Var::NumberedListItem { inline: run(vec![span("one", plain())]) })],
    );
    assert_eq!(
        numbered.to_pandoc(&no_embeds()),
        Some(pandoc::Block::OrderedList(
            pandoc::ListAttributes(1, pandoc::ListNumberStyle::Decimal, pandoc::ListNumberDelim::Period),
            vec![vec![pandoc::Block::Plain(vec![s("one")])]]
        ))
    );
}

#[test]
fn to_do_item_keeps_its_children() {
    let item = parent(
        Var::ToDoListItem { to_do: notion::ToDo { rich_text: vec![], checked: true } },
        vec![block(Var::Divider), block(Var::Unsupported)],
    );
    assert!(item.is_convertible_item());
    assert_eq!(
        notion::Block::convert_list_item(item, &no_embeds()),
        vec![
            pandoc::Block::Plain(vec![s("\u{2612}"), Inline::Space]),
            pandoc::Block::HorizontalRule
        ]
    );
}

#[test]
fn list_items_stand_only_inside_lists() {
    let item = || block(Var::BulletedListItem { inline: run(vec![]) });
    assert!(!item().is_convertible());
    assert!(item().is_convertible_item());
    assert!(!block(Var::NumberedListItem { inline: run(vec![]) }).is_convertible());
    assert!(!block(Var::ToggleListItem { inline: run(vec![]) }).is_convertible());
    assert!(!block(Var::BulletedList).is_convertible());
    assert!(!parent(Var::NumberedList, vec![block(Var::Divider)]).is_convertible());
    assert!(!block(Var::Divider).is_convertible_item());
    assert!(!parent(Var::Quote { inline: run(vec![]) }, vec![item()]).is_convertible());
    assert!(!parent(Var::BulletedListItem { inline: run(vec![]) }, vec![item()]).is_convertible_item());
    let page = notion::Page { blocks: vec![block(Var::Divider), item()] };
    assert!(!page.is_convertible());
    assert!(notion::Page { blocks: vec![] }.is_convertible());
}

#[test]
fn page_becomes_a_document() {
    let page = notion::Page::assemble(vec![
        block(Var::TableOfContents),
        parent(
            Var::Paragraph { inline: run(vec![span("p", plain())]) },
            vec![block(Var::NumberedListItem { inline: run(vec![span("n", plain())]) })],
        ),
    ]);
    assert!(page.is_convertible());
    let doc = page.to_pandoc(
        "Title".to_string(),
        "2024-01-02".to_string(),
        "2024-03-04".to_string(),
        &no_embeds(),
    );
    assert_eq!(doc.pandoc_api_version, [1, 22, 2, 1]);
    assert_eq!(
        doc.meta,
        pandoc::Meta(vec![
            ("date".to_string(), pandoc::MetaValue::MetaString("2024-01-02".to_string())),
            ("lastmod".to_string(), pandoc::MetaValue::MetaString("2024-03-04".to_string())),
            ("title".to_string(), pandoc::MetaValue::MetaString("Title".to_string())),
            ("toc".to_string(), pandoc::MetaValue::MetaBool(true)),
        ])
    );
    assert_eq!(
        doc.blocks,
        vec![
            pandoc::Block::Para(vec![s("p")]),
            pandoc::Block::OrderedList(
                pandoc::ListAttributes(1, pandoc::ListNumberStyle::Decimal, pandoc::ListNumberDelim::Period),
                vec![vec![pandoc::Block::Plain(vec![s("n")])]]
            ),
        ]
    );
}

#[test]
fn attributes_compare_by_content() {
    assert!(class(&["a", "b"]).same(&class(&["a", "b"])));
    assert!(!class(&["a", "b"]).same(&class(&["a"])));
    assert!(!class(&["a"]).same(&class(&["b"])));
    let with_pair = Attr(String::new(), vec![], vec![("k".to_string(), "v".to_string())]);
    assert!(!no_attr().same(&with_pair));
    assert!(target("u").same(&target("u")));
    assert!(!target("u").same(&target("v")));
    assert_eq!(Attr::default(), no_attr());
}

#[test]
fn archived_block_never_reaches_the_document() {
    let archived = notion::Block {
        id: 2,
        archived: true,
        var: Var::Paragraph { inline: run(vec![span("gone", plain())]) },
        children: None,
    };
    let mut listing = notion::Listing::new();
    listing.absorb(notion::ChildrenPage {
        has_more: false,
        next_cursor: None,
        results: vec![
            block(Var::Paragraph { inline: run(vec![span("kept", plain())]) }),
            archived,
            block(Var::Divider),
        ],
    });
    let page = notion::Page::assemble(listing.blocks);
    assert!(page.blocks.iter().all(|b| !b.archived));
    assert!(page.is_convertible());
    let doc = page.to_pandoc(String::new(), String::new(), String::new(), &no_embeds());
    assert_eq!(
        doc.blocks,
        vec![pandoc::Block::Para(vec![s("kept")]), pandoc::Block::HorizontalRule]
    );
}

#[test]
fn defaults_are_empty() {
    assert_eq!(pandoc::Caption::default(), pandoc::Caption(None, vec![]));
    assert_eq!(pandoc::TableFoot::default(), pandoc::TableFoot(no_attr(), vec![]));
    assert_eq!(pandoc::TableHead::default(), pandoc::TableHead(no_attr(), vec![]));
    assert_eq!(pandoc::Row::default(), pandoc::Row(no_attr(), vec![]));
    assert_eq!(
        pandoc::ColSpec::default(),
        pandoc::ColSpec(pandoc::Alignment::AlignDefault, pandoc::ColWidth::ColWidthDefault)
    );
    assert_eq!(pandoc::MathType::default(), MathType::DisplayMath);
    assert_eq!(pandoc::ListNumberStyle::default(), pandoc::ListNumberStyle::DefaultStyle);
    assert_eq!(pandoc::ListNumberDelim::default(), pandoc::ListNumberDelim::DefaultDelim);
    assert_eq!(pandoc::RowHeadColumns::default(), pandoc::RowHeadColumns(0));
}
