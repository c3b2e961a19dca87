use notion2pandoc::notion::{
    drop_archived, embed_urls, fetch_blocks, flatten_paragraph_block, join_list_block,
    next_request, Answer, AnswerPage, Block, Callout, ChildrenPage, Embed, Icon, Inline, Listing,
    Page, ToDo, Var,
};
use uuid::Uuid;

#[test]
fn test_flatten_paragraph_block() {
    let id1 = Uuid::new_v4().as_u128();
    let id2 = Uuid::new_v4().as_u128();
    let id3 = Uuid::new_v4().as_u128();
    let id4 = Uuid::new_v4().as_u128();
    let id5 = Uuid::new_v4().as_u128();
    let id6 = Uuid::new_v4().as_u128();
    let id7 = Uuid::new_v4().as_u128();
    let id8 = Uuid::new_v4().as_u128();
    let id9 = Uuid::new_v4().as_u128();

    let var1 = Var::Paragraph {
        inline: Inline { rich_text: vec![] },
    };
    let var2 = Var::Paragraph {
        inline: Inline { rich_text: vec![] },
    };
    let var3 = Var::Quote {
        inline: Inline { rich_text: vec![] },
    };
    let var4 = Var::Paragraph {
        inline: Inline { rich_text: vec![] },
    };
    let var5 = Var::Quote {
        inline: Inline { rich_text: vec![] },
    };
    let var6 = Var::Paragraph {
        inline: Inline { rich_text: vec![] },
    };
    let var7 = Var::Divider;
    let var8 = Var::Paragraph {
        inline: Inline { rich_text: vec![] },
    };
    let var9 = Var::Paragraph {
        inline: Inline { rich_text: vec![] },
    };

    let input = vec![Block {
        archived: false,
        id: id1,
        var: var1.clone(),
        children: Some(vec![
            Block {
                archived: false,
                id: id2,
                var: var2.clone(),
                children: None,
            },
            Block {
                archived: false,
                id: id3,
                var: var3.clone(), // Quote
                children: Some(vec![Block {
                    archived: false,
                    id: id4,
                    var: var4.clone(),
                    children: Some(vec![
                        Block {
                            archived: false,
                            id: id5,
                            var: var5.clone(), // Quote
                            children: Some(vec![Block {
                                archived: false,
                                id: id6,
                                var: var6.clone(),
                                children: None,
                            }]),
                        },
                        Block {
                            archived: false,
                            id: id7,
                            var: var7.clone(), // Divider
                            children: None,
                        },
                        Block {
                            archived: false,
                            id: id8,
                            var: var8.clone(),
                            children: Some(vec![Block {
                                archived: false,
                                id: id9,
                                var: var9.clone(),
                                children: None,
                            }]),
                        },
                    ]),
                }]),
            },
        ]),
    }];

    let expect = vec![
        Block {
            archived: false,
            id: id1,
            var: var1,
            children: None,
        },
        Block {
            archived: false,
            id: id2,
            var: var2,
            children: None,
        },
        Block {
            archived: false,
            id: id3,
            var: var3, // Quote
            children: Some(vec![
                Block {
                    archived: false,
                    id: id4,
                    var: var4,
                    children: None,
                },
                Block {
                    archived: false,
                    id: id5,
                    var: var5, // Quote
                    children: Some(vec![Block {
                        archived: false,
                        id: id6,
                        var: var6,
                        children: None,
                    }]),
                },
                Block {
                    archived: false,
                    id: id7,
                    var: var7, // Divider
                    children: None,
                },
                Block {
                    archived: false,
                    id: id8,
                    var: var8,
                    children: None,
                },
                Block {
                    archived: false,
                    id: id9,
                    var: var9,
                    children: None,
                },
            ]),
        },
    ];

    let result = flatten_paragraph_block(input);
    assert_eq!(result, expect);
}

#[test]
fn test_join_list_block() {
    let id1 = Uuid::new_v4().as_u128();
    let id2 = Uuid::new_v4().as_u128();
    let id3 = Uuid::new_v4().as_u128();
    let id4 = Uuid::new_v4().as_u128();
    let id5 = Uuid::new_v4().as_u128();
    let id6 = Uuid::new_v4().as_u128();
    let id7 = Uuid::new_v4().as_u128();
    let id8 = Uuid::new_v4().as_u128();
    let id9 = Uuid::new_v4().as_u128();

    let var1 = Var::BulletedListItem {
        inline: Inline { rich_text: vec![] },
    };
    let var2 = Var::BulletedListItem {
        inline: Inline { rich_text: vec![] },
    };
    let var3 = Var::ToggleListItem {
        inline: Inline { rich_text: vec![] },
    };
    let var4 = Var::NumberedListItem {
        inline: Inline { rich_text: vec![] },
    };
    let var5 = Var::NumberedListItem {
        inline: Inline { rich_text: vec![] },
    };
    let var6 = Var::ToggleListItem {
        inline: Inline { rich_text: vec![] },
    };
    let var7 = Var::NumberedListItem {
        inline: Inline { rich_text: vec![] },
    };
    let var8 = Var::NumberedListItem {
        inline: Inline { rich_text: vec![] },
    };
    let var9 = Var::BulletedListItem {
        inline: Inline { rich_text: vec![] },
    };

    let input = vec![
        Block {
            archived: false,
            id: id1,
            var: var1.clone(),
            children: None,
        },
        Block {
            archived: false,
            id: id2,
            var: var2.clone(),
            children: None,
        },
        Block {
            archived: false,
            id: id3,
            var: var3.clone(),
            children: None,
        },
        Block {
            archived: false,
            id: id4,
            var: var4.clone(), // NumberedListItem
            children: None,
        },
        Block {
            archived: false,
            id: id5,
            var: var5.clone(), // NumberedListItem
            children: None,
        },
        Block {
            archived: false,
            id: id6,
            var: var6.clone(),
            children: Some(vec![
                Block {
                    archived: false,
                    id: id7,
                    var: var7.clone(), // NumberedListItem
                    children: None,
                },
                Block {
                    archived: false,
                    id: id8,
                    var: var8.clone(), // NumberedListItem
                    children: None,
                },
                Block {
                    archived: false,
                    id: id9,
                    var: var9.clone(),
                    children: None,
                },
            ]),
        },
    ];

    let expect = vec![
        Block {
            archived: false,
            id: id1,
            var: Var::BulletedList,
            children: Some(vec![
                Block {
                    archived: false,
                    id: id1,
                    var: var1,
                    children: None,
                },
                Block {
                    archived: false,
                    id: id2,
                    var: var2,
                    children: None,
                },
                Block {
                    archived: false,
                    id: id3,
                    var: var3,
                    children: None,
                },
            ]),
        },
        Block {
            archived: false,
            id: id4,
            var: Var::NumberedList,
            children: Some(vec![
                Block {
                    archived: false,
                    id: id4,
                    var: var4,
                    children: None,
                },
                Block {
                    archived: false,
                    id: id5,
                    var: var5,
                    children: None,
                },
            ]),
        },
        Block {
            archived: false,
            id: id6,
            var: Var::BulletedList,
            children: Some(vec![Block {
                archived: false,
                id: id6,
                var: var6,
                children: Some(vec![
                    Block {
                        archived: false,
                        id: id7,
                        var: Var::NumberedList,
                        children: Some(vec![
                            Block {
                                archived: false,
                                id: id7,
                                var: var7, // NumberedListItem
                                children: None,
                            },
                            Block {
                                archived: false,
                                id: id8,
                                var: var8, // NumberedListItem
                                children: None,
                            },
                        ]),
                    },
                    Block {
                        archived: false,
                        id: id9,
                        var: Var::BulletedList,
                        children: Some(vec![Block {
                            archived: false,
                            id: id9,
                            var: var9,
                            children: None,
                        }]),
                    },
                ]),
            }]),
        },
    ];

    let result = join_list_block(input);
    assert_eq!(result, expect);
}

#[test]
fn test_has_toc() {
    let id1 = Uuid::new_v4().as_u128();
    let id2 = Uuid::new_v4().as_u128();

    let var1 = Var::Paragraph {
        inline: Inline { rich_text: vec![] },
    };
    let var2 = Var::TableOfContents;

    let input = Page {
        blocks: vec![Block {
            archived: false,
            id: id1,
            var: var1.clone(),
            children: Some(vec![Block {
                archived: false,
                id: id2,
                var: var2,
                children: None,
            }]),
        }],
    };

    assert!(input.has_toc());

    let input = Page {
        blocks: vec![Block {
            archived: false,
            id: id1,
            var: var1.clone(),
            children: Some(vec![Block {
                archived: false,
                id: id2,
                var: var1,
                children: None,
            }]),
        }],
    };

    assert!(!input.has_toc());
}

fn text() -> Inline {
    Inline { rich_text: vec![] }
}

fn leaf(id: u128, var: Var) -> Block {
    Block { id, archived: false, var, children: None }
}

fn node(id: u128, var: Var, children: Vec<Block>) -> Block {
    Block { id, archived: false, var, children: Some(children) }
}

#[test]
fn flatten_leaves_flat_input_unchanged() {
    let input = || {
        vec![
            leaf(1, Var::Paragraph { inline: text() }),
            node(
                2,
                Var::Quote { inline: text() },
                vec![leaf(3, Var::Divider), node(4, Var::Heading1 { inline: text() }, vec![])],
            ),
            leaf(5, Var::TableOfContents),
        ]
    };
    assert_eq!(flatten_paragraph_block(input()), input());
}

#[test]
fn flatten_twice_is_flatten_once() {
    let input = || {
        vec![node(
            1,
            Var::Paragraph { inline: text() },
            vec![
                node(2, Var::Paragraph { inline: text() }, vec![leaf(3, Var::Divider)]),
                leaf(4, Var::Divider),
            ],
        )]
    };
    let once = flatten_paragraph_block(input());
    assert_eq!(flatten_paragraph_block(flatten_paragraph_block(input())), once);
}

#[test]
fn flatten_paragraph_with_two_children() {
    let input = vec![node(
        1,
        Var::Paragraph { inline: text() },
        vec![leaf(2, Var::Divider), leaf(3, Var::TableOfContents)],
    )];
    let expect = vec![
        leaf(1, Var::Paragraph { inline: text() }),
        leaf(2, Var::Divider),
        leaf(3, Var::TableOfContents),
    ];
    assert_eq!(flatten_paragraph_block(input), expect);
}

#[test]
fn flatten_paragraph_without_fetched_children_loses_flag() {
    let input = vec![node(1, Var::Paragraph { inline: text() }, vec![])];
    let expect = vec![leaf(1, Var::Paragraph { inline: text() })];
    assert_eq!(flatten_paragraph_block(input), expect);
}

#[test]
fn flatten_of_nothing_is_nothing() {
    assert_eq!(flatten_paragraph_block(vec![]), vec![]);
    assert_eq!(join_list_block(vec![]), vec![]);
}

#[test]
fn three_adjacent_items_share_one_container() {
    let to_do = || Var::ToDoListItem { to_do: ToDo { rich_text: vec![], checked: true } };
    let input = vec![
        leaf(10, Var::BulletedListItem { inline: text() }),
        leaf(11, Var::ToggleListItem { inline: text() }),
        leaf(12, to_do()),
    ];
    let expect = vec![node(
        10,
        Var::BulletedList,
        vec![
            leaf(10, Var::BulletedListItem { inline: text() }),
            leaf(11, Var::ToggleListItem { inline: text() }),
            leaf(12, to_do()),
        ],
    )];
    assert_eq!(join_list_block(input), expect);
}

#[test]
fn numbered_then_bulleted_gives_two_containers() {
    let input = vec![
        leaf(1, Var::NumberedListItem { inline: text() }),
        leaf(2, Var::BulletedListItem { inline: text() }),
    ];
    let expect = vec![
        node(1, Var::NumberedList, vec![leaf(1, Var::NumberedListItem { inline: text() })]),
        node(2, Var::BulletedList, vec![leaf(2, Var::BulletedListItem { inline: text() })]),
    ];
    assert_eq!(join_list_block(input), expect);
}

#[test]
fn other_block_between_items_splits_the_run() {
    let input = vec![
        leaf(1, Var::BulletedListItem { inline: text() }),
        leaf(2, Var::Divider),
        leaf(3, Var::BulletedListItem { inline: text() }),
    ];
    let expect = vec![
        node(1, Var::BulletedList, vec![leaf(1, Var::BulletedListItem { inline: text() })]),
        leaf(2, Var::Divider),
        node(3, Var::BulletedList, vec![leaf(3, Var::BulletedListItem { inline: text() })]),
    ];
    assert_eq!(join_list_block(input), expect);
}

#[test]
fn container_is_never_archived() {
    let input = vec![Block {
        id: 7,
        archived: true,
        var: Var::NumberedListItem { inline: text() },
        children: None,
    }];
    let result = join_list_block(input);
    assert_eq!(result.len(), 1);
    assert_eq!(result[0].id, 7);
    assert!(!result[0].archived);
    assert_eq!(result[0].var, Var::NumberedList);
    assert!(result[0].children.as_ref().unwrap()[0].archived);
}

#[test]
fn container_without_children_takes_no_item() {
    let input = vec![
        leaf(1, Var::BulletedList),
        leaf(2, Var::BulletedListItem { inline: text() }),
    ];
    let expect = vec![
        leaf(1, Var::BulletedList),
        node(2, Var::BulletedList, vec![leaf(2, Var::BulletedListItem { inline: text() })]),
    ];
    assert_eq!(join_list_block(input), expect);
}

#[test]
fn grouping_reaches_every_level() {
    let input = vec![node(
        1,
        Var::Quote { inline: text() },
        vec![node(
            2,
            Var::Callout {
                callout: Callout { rich_text: vec![], icon: Icon::Emoji { emoji: "x".to_string() } },
            },
            vec![node(
                3,
                Var::NumberedListItem { inline: text() },
                vec![
                    leaf(4, Var::BulletedListItem { inline: text() }),
                    leaf(5, Var::ToggleListItem { inline: text() }),
                ],
            )],
        )],
    )];
    let expect = vec![node(
        1,
        Var::Quote { inline: text() },
        vec![node(
            2,
            Var::Callout {
                callout: Callout { rich_text: vec![], icon: Icon::Emoji { emoji: "x".to_string() } },
            },
            vec![node(
                3,
                Var::NumberedList,
                vec![node(
                    3,
                    Var::NumberedListItem { inline: text() },
                    vec![node(
                        4,
                        Var::BulletedList,
                        vec![
                            leaf(4, Var::BulletedListItem { inline: text() }),
                            leaf(5, Var::ToggleListItem { inline: text() }),
                        ],
                    )],
                )],
            )],
        )],
    )];
    assert_eq!(join_list_block(input), expect);
}

#[test]
fn has_toc_finds_a_deep_block() {
    let deep = node(
        1,
        Var::Quote { inline: text() },
        vec![
            leaf(2, Var::Divider),
            node(3, Var::Quote { inline: text() }, vec![leaf(4, Var::TableOfContents)]),
        ],
    );
    assert!(deep.has_toc());
    assert!(leaf(1, Var::TableOfContents).has_toc());
    assert!(!leaf(1, Var::Divider).has_toc());
    assert!(!node(1, Var::Divider, vec![]).has_toc());
    assert!(!Page { blocks: vec![] }.has_toc());
    assert!(Page { blocks: vec![leaf(1, Var::Divider), deep] }.has_toc());
}

#[test]
fn archived_blocks_are_dropped() {
    let archived = |id: u128| Block { id, archived: true, var: Var::Divider, children: None };
    let kept = drop_archived(vec![archived(1), leaf(2, Var::Divider), archived(3), leaf(4, Var::Divider)]);
    assert_eq!(kept, vec![leaf(2, Var::Divider), leaf(4, Var::Divider)]);
    assert_eq!(drop_archived(vec![archived(1)]), vec![]);
}

#[test]
fn listing_gathers_pages_in_order() {
    let mut listing = Listing::new();
    assert!(listing.pending());
    assert_eq!(listing.next_cursor, None);
    assert!(listing.blocks.is_empty());
    listing.absorb(ChildrenPage {
        has_more: true,
        next_cursor: Some("c1".to_string()),
        results: vec![
            leaf(1, Var::Divider),
            Block { id: 2, archived: true, var: Var::Divider, children: None },
        ],
    });
    assert!(listing.pending());
    assert_eq!(listing.next_cursor, Some("c1".to_string()));
    listing.absorb(ChildrenPage {
        has_more: false,
        next_cursor: None,
        results: vec![leaf(3, Var::TableOfContents)],
    });
    assert!(!listing.pending());
    assert_eq!(listing.next_cursor, None);
    assert_eq!(listing.blocks, vec![leaf(1, Var::Divider), leaf(3, Var::TableOfContents)]);
}

#[test]
fn adopt_fills_only_flagged_blocks() {
    let mut flagged = node(1, Var::Quote { inline: text() }, vec![]);
    assert!(flagged.expects_children());
    flagged.adopt(vec![leaf(2, Var::Divider)]);
    assert_eq!(flagged, node(1, Var::Quote { inline: text() }, vec![leaf(2, Var::Divider)]));
    let mut plain = leaf(3, Var::Divider);
    assert!(!plain.expects_children());
    plain.adopt(vec![leaf(4, Var::Divider)]);
    assert_eq!(plain, leaf(3, Var::Divider));
}

#[test]
fn assemble_flattens_then_groups() {
    let page = Page::assemble(vec![node(
        1,
        Var::Paragraph { inline: text() },
        vec![
            leaf(2, Var::BulletedListItem { inline: text() }),
            leaf(3, Var::BulletedListItem { inline: text() }),
        ],
    )]);
    let expect = vec![
        leaf(1, Var::Paragraph { inline: text() }),
        node(
            2,
            Var::BulletedList,
            vec![
                leaf(2, Var::BulletedListItem { inline: text() }),
                leaf(3, Var::BulletedListItem { inline: text() }),
            ],
        ),
    ];
    assert_eq!(page.blocks, expect);
}

#[test]
fn embed_urls_follow_the_tree() {
    let embed = |url: &str| Embed { caption: vec![], url: url.to_string() };
    let blocks = vec![
        leaf(1, Var::Embed { embed: embed("a") }),
        node(
            2,
            Var::Quote { inline: text() },
            vec![leaf(3, Var::Bookmark { embed: embed("b") }), leaf(4, Var::Divider)],
        ),
        node(5, Var::Bookmark { embed: embed("c") }, vec![leaf(6, Var::Embed { embed: embed("d") })]),
    ];
    assert_eq!(embed_urls(&blocks), vec!["a", "b", "c", "d"]);
    assert_eq!(embed_urls(&vec![]), Vec::<String>::new());
}

fn answer(block: Block, below: Vec<AnswerPage>) -> Answer {
    Answer { block, below }
}

fn one_page(results: Vec<Answer>) -> Vec<AnswerPage> {
    vec![AnswerPage { has_more: false, next_cursor: None, results }]
}

fn gone(id: u128, children: Option<Vec<Block>>) -> Block {
    Block { id, archived: true, var: Var::Divider, children }
}

#[test]
fn fetch_drops_archived_blocks_at_every_depth() {
    let pages = vec![
        AnswerPage {
            has_more: true,
            next_cursor: Some("c1".to_string()),
            results: vec![
                answer(
                    node(1, Var::Quote { inline: text() }, vec![]),
                    one_page(vec![
                        answer(gone(2, None), vec![]),
                        answer(
                            node(3, Var::Quote { inline: text() }, vec![]),
                            one_page(vec![
                                answer(leaf(4, Var::Divider), vec![]),
                                answer(gone(5, Some(vec![])), one_page(vec![answer(leaf(6, Var::Divider), vec![])])),
                            ]),
                        ),
                    ]),
                ),
                answer(gone(7, None), vec![]),
            ],
        },
        AnswerPage {
            has_more: false,
            next_cursor: None,
            results: vec![answer(leaf(8, Var::Divider), one_page(vec![answer(leaf(9, Var::Divider), vec![])]))],
        },
    ];
    let expect = vec![
        node(
            1,
            Var::Quote { inline: text() },
            vec![node(3, Var::Quote { inline: text() }, vec![leaf(4, Var::Divider)])],
        ),
        leaf(8, Var::Divider),
    ];
    assert_eq!(fetch_blocks(pages), expect);
}

#[test]
fn fetch_stops_at_the_page_that_ends_the_listing() {
    let page = |has_more: bool, id: u128| AnswerPage {
        has_more,
        next_cursor: None,
        results: vec![answer(leaf(id, Var::Divider), vec![])],
    };
    assert_eq!(
        fetch_blocks(vec![page(true, 1), page(false, 2), page(true, 3)]),
        vec![leaf(1, Var::Divider), leaf(2, Var::Divider)]
    );
    assert_eq!(fetch_blocks(vec![page(true, 1)]), vec![leaf(1, Var::Divider)]);
    assert_eq!(fetch_blocks(vec![]), vec![]);
}

#[test]
fn fetch_recursive_fills_only_flagged_blocks() {
    let below = || one_page(vec![answer(leaf(2, Var::Divider), vec![]), answer(gone(3, None), vec![])]);
    let mut flagged = node(1, Var::Quote { inline: text() }, vec![]);
    flagged.fetch_recursive(below());
    assert_eq!(flagged, node(1, Var::Quote { inline: text() }, vec![leaf(2, Var::Divider)]));
    let mut empty = node(1, Var::Quote { inline: text() }, vec![]);
    empty.fetch_recursive(vec![]);
    assert_eq!(empty, node(1, Var::Quote { inline: text() }, vec![]));
    let mut plain = leaf(4, Var::Divider);
    plain.fetch_recursive(below());
    assert_eq!(plain, leaf(4, Var::Divider));
}

#[test]
fn page_is_fetched_then_brought_into_shape() {
    let pages = one_page(vec![
        answer(
            node(1, Var::Paragraph { inline: text() }, vec![]),
            one_page(vec![
                answer(leaf(2, Var::NumberedListItem { inline: text() }), vec![]),
                answer(gone(3, None), vec![]),
                answer(leaf(4, Var::NumberedListItem { inline: text() }), vec![]),
            ]),
        ),
        answer(gone(5, None), vec![]),
    ]);
    let expect = vec![
        leaf(1, Var::Paragraph { inline: text() }),
        node(
            2,
            Var::NumberedList,
            vec![
                leaf(2, Var::NumberedListItem { inline: text() }),
                leaf(4, Var::NumberedListItem { inline: text() }),
            ],
        ),
    ];
    assert_eq!(Page::fetch(pages).blocks, expect);
}

#[test]
fn requests_follow_the_cursor() {
    let page = |has_more: bool, cursor: Option<&str>| AnswerPage {
        has_more,
        next_cursor: cursor.map(|c| c.to_string()),
        results: vec![],
    };
    assert_eq!(next_request(&vec![]), Some(None));
    assert_eq!(next_request(&vec![page(true, Some("c1"))]), Some(Some("c1".to_string())));
    assert_eq!(next_request(&vec![page(true, Some("c1")), page(true, None)]), Some(None));
    assert_eq!(next_request(&vec![page(true, Some("c1")), page(false, Some("c2"))]), None);
}

#[test]
fn children_are_asked_for_only_below_live_flagged_blocks() {
    assert!(node(1, Var::Divider, vec![]).asks_for_children());
    assert!(!leaf(1, Var::Divider).asks_for_children());
    assert!(!gone(1, Some(vec![])).asks_for_children());
    assert!(!gone(1, None).asks_for_children());
}
