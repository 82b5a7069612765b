use seventeen::line_cache::{Line as CacheLine, LineCache, StyleSpan};
use seventeen::protocol::{Line, Op, OpKind, Update};
use seventeen::screen::Coordinate;

#[test]
fn insert() {
    let mut cache = LineCache::new();
    cache.update(Update {
        rev: None,
        ops: vec![Op {
            op: OpKind::Ins,
            n: 2,
            lines: Some(vec![
                Line {
                    text: Some(String::from("Hello, world!")),
                    ..Default::default()
                },
                Line {
                    text: Some(String::from("Goodbye, world!")),
                    ..Default::default()
                },
            ]),
        }],
        pristine: true,
    });

    assert_eq!(
        cache
            .lines
            .into_iter()
            .map(|line| line.text)
            .collect::<Vec<_>>(),
        vec!["Hello, world!", "Goodbye, world!"]
    );
}

#[test]
fn invalidate() {
    let mut cache = LineCache::new();
    cache.update(Update {
        rev: None,
        ops: vec![Op {
            op: OpKind::Invalidate,
            n: 10,
            lines: None,
        }],
        pristine: true,
    });

    assert_eq!(cache.len(), 10);
    assert!(cache.lines.is_empty());
}

#[test]
fn copy() {
    let mut cache = LineCache::new();
    cache.lines = vec![
        CacheLine {
            text: String::from("Hello, world!"),
            ..Default::default()
        },
        CacheLine {
            text: String::from("Goodbye, world!"),
            ..Default::default()
        },
    ];

    cache.update(Update {
        rev: None,
        ops: vec![Op {
            op: OpKind::Copy,
            n: 1,
            lines: None,
        }],
        pristine: true,
    });

    assert_eq!(cache.len(), 1);
    assert_eq!(
        cache.lines.into_iter().next().unwrap().text,
        "Hello, world!"
    );
}

#[test]
fn copy_invalid_before() {
    let mut cache = LineCache::new();
    cache.invalid_before = 1;
    cache.lines = vec![
        CacheLine {
            text: String::from("Hello, world!"),
            ..Default::default()
        },
        CacheLine {
            text: String::from("Goodbye, world!"),
            ..Default::default()
        },
    ];

    cache.update(Update {
        rev: None,
        ops: vec![Op {
            op: OpKind::Copy,
            n: 2,
            lines: None,
        }],
        pristine: true,
    });

    assert_eq!(cache.len(), 2);
    assert_eq!(cache.invalid_before, 1);
    assert_eq!(cache.lines.len(), 1);
    assert_eq!(
        cache.lines.into_iter().next().unwrap().text,
        "Hello, world!"
    );
}

#[test]
fn is_eol() {
    let mut cache = LineCache::new();
    cache.lines = vec![CacheLine {
        text: String::from("Hello, world!\n"),
        ..Default::default()
    }];

    assert!(cache.is_eol(&Coordinate::new(13, 0)));
    assert!(!cache.is_eol(&Coordinate::new(10, 0)));
}

#[test]
fn style_spans() {
    let line = CacheLine {
        text: String::from("int main() {}\n"),
        cursors: Some(vec![0]),
        styles: vec![0, 3, 2, 0, 1, 3, 0, 4, 4, -1, 3, 2],
    };

    let spans = line.iter_style_spans();

    assert_eq!(
        spans,
        vec![
            StyleSpan {
                id: 2,
                start: 0,
                length: 3,
            },
            StyleSpan {
                id: 3,
                start: 3,
                length: 1,
            },
            StyleSpan {
                id: 4,
                start: 4,
                length: 4,
            },
            StyleSpan {
                id: 2,
                start: 7,
                length: 3,
            },
        ]
    );
}

#[test]
fn iter_invalid_lines_before() {
    let mut cache = LineCache::new();
    cache.invalid_before = 1;
    cache.lines = vec![
        CacheLine {
            text: String::from("Hello, world!"),
            ..Default::default()
        },
        CacheLine {
            text: String::from("Goodbye, world!"),
            ..Default::default()
        },
    ];

    assert!(cache.iter_lines(0, cache.len()).is_none());
}

#[test]
fn iter_invalid_lines_after() {
    let mut cache = LineCache::new();
    cache.invalid_after = 1;
    cache.lines = vec![
        CacheLine {
            text: String::from("Hello, world!"),
            ..Default::default()
        },
        CacheLine {
            text: String::from("Goodbye, world!"),
            ..Default::default()
        },
    ];

    assert!(cache.iter_lines(0, cache.len()).is_none());
}

#[test]
fn iter_lines_known_range() {
    let cache = LineCache::new_from_lines(&["one", "two", "three"]);
    let lines = cache.iter_lines(1, 3).expect("range is fully known");
    let texts = lines.iter().map(|l| l.text.clone()).collect::<Vec<_>>();
    assert_eq!(texts, vec!["two", "three"]);
}

#[test]
fn update_length_matches_announced_counts() {
    let mut cache = LineCache::new();
    cache.update(Update {
        rev: None,
        ops: vec![
            Op {
                op: OpKind::Ins,
                n: 2,
                lines: Some(vec![
                    Line {
                        text: Some(String::from("alpha")),
                        ..Default::default()
                    },
                    Line {
                        text: Some(String::from("beta")),
                        ..Default::default()
                    },
                ]),
            },
            Op {
                op: OpKind::Invalidate,
                n: 3,
                lines: None,
            },
        ],
        pristine: false,
    });
    assert_eq!(cache.len(), 5);
    assert_eq!(cache.invalid_after, 3);
    assert_eq!(cache.invalid_before, 0);
}

#[test]
fn skip_discards_before_copy() {
    let mut cache = LineCache::new();
    cache.lines = vec![
        CacheLine {
            text: String::from("first"),
            ..Default::default()
        },
        CacheLine {
            text: String::from("second"),
            ..Default::default()
        },
    ];
    cache.update(Update {
        rev: None,
        ops: vec![
            Op {
                op: OpKind::Skip,
                n: 1,
                lines: None,
            },
            Op {
                op: OpKind::Copy,
                n: 1,
                lines: None,
            },
        ],
        pristine: true,
    });
    assert_eq!(cache.len(), 1);
    assert_eq!(cache.lines[0].text, "second");
}

#[test]
fn cursors_listed_in_order() {
    let line = CacheLine {
        text: String::from("text"),
        cursors: Some(vec![1, 3]),
        styles: Vec::new(),
    };
    assert_eq!(line.iter_cursors(), vec![1, 3]);
    let bare = CacheLine {
        text: String::from("text"),
        ..Default::default()
    };
    assert_eq!(bare.iter_cursors(), Vec::<u64>::new());
}

#[test]
fn announced_len_sums_non_skip_ops() {
    let ops = vec![
        Op {
            op: OpKind::Ins,
            n: 2,
            lines: Some(vec![Line::default(), Line::default()]),
        },
        Op {
            op: OpKind::Skip,
            n: 7,
            lines: None,
        },
        Op {
            op: OpKind::Invalidate,
            n: 3,
            lines: None,
        },
    ];
    assert_eq!(seventeen::line_cache::announced_len(&ops), Some(5));
}
