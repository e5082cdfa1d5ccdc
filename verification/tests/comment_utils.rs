use comment_spans::classify::is_code_comment;
use comment_spans::collect::{collect_comments, TreeNode};
use comment_spans::merge::{is_single_line_comment, merge_adjacent_comments};
use comment_spans::position::offset_to_linecol;
use comment_spans::reconstruct::reconstruct_source;

#[test]
fn test_merge_adjacent_with_code_between() {
    let src = "// a\nint x;\n// b\n";
    let comments = vec![(0, 5), (12, 17)];
    let merged = merge_adjacent_comments(src.as_bytes(), &comments);
    assert_eq!(merged, comments);
}

#[test]
fn test_is_single_line_comment() {
    let src = "// a\n/* multi\nline */\n";
    assert!(is_single_line_comment(src.as_bytes(), (0, 5)));
    assert!(!is_single_line_comment(src.as_bytes(), (6, 20)));
}

#[test]
fn test_is_code_comment_empty() {
    assert!(!is_code_comment("".as_bytes(), 10));
}

#[test]
fn test_is_code_comment_define() {
    let c = "/*\n#define X 10\n#define Y 20\n*/";
    assert!(is_code_comment(c.as_bytes(), 50));
}

#[test]
fn test_merge_adjacent_runs() {
    let src = "// a\n// b\nint x;\n// c\n// d\n/* multi\nline */\n// e\n";
    let comments = vec![(0, 4), (5, 9), (17, 21), (22, 26), (27, 43), (44, 48)];
    let merged = merge_adjacent_comments(src.as_bytes(), &comments);
    assert_eq!(merged, vec![(0, 9), (17, 26), (27, 43), (44, 48)]);
}

#[test]
fn test_merge_single_span_and_empty() {
    let src = "// only\n";
    let one = vec![(0, 7)];
    assert_eq!(merge_adjacent_comments(src.as_bytes(), &one), one);
    let none: Vec<(usize, usize)> = vec![];
    assert_eq!(merge_adjacent_comments(src.as_bytes(), &none), none);
}

#[test]
fn test_merge_twice_gives_same_output() {
    let src = "// a\n// b\nint x;\n// c\n// d\n/* multi\nline */\n// e\n";
    let comments = vec![(0, 4), (5, 9), (17, 21), (22, 26), (27, 43), (44, 48)];
    let once = merge_adjacent_comments(src.as_bytes(), &comments);
    let twice = merge_adjacent_comments(src.as_bytes(), &once);
    assert_eq!(twice, once);
}

#[test]
fn test_merge_across_blank_line() {
    // Spans separated by a whole blank line still merge: only whitespace
    // lies between them.
    let src = "// a\n\n// b\n";
    let comments = vec![(0, 4), (6, 10)];
    let merged = merge_adjacent_comments(src.as_bytes(), &comments);
    assert_eq!(merged, vec![(0, 10)]);
}

#[test]
fn test_is_code_comment_two_of_three_lines() {
    let c = "int a = 0;\nfoo();\njust text";
    assert!(is_code_comment(c.as_bytes(), 50));
    assert!(!is_code_comment(c.as_bytes(), 80));
}

#[test]
fn test_is_code_comment_threshold_edges() {
    let c = "a;\nplain words";
    // exactly 50% meets an inclusive threshold of 50
    assert!(is_code_comment(c.as_bytes(), 50));
    assert!(!is_code_comment(c.as_bytes(), 51));
    // threshold 0 accepts any non-empty comment
    assert!(is_code_comment("plain words".as_bytes(), 0));
    // a threshold above 100 can never be met
    assert!(!is_code_comment("a;\nb;".as_bytes(), 101));
}

#[test]
fn test_is_code_comment_markers_count_as_code() {
    // lines opening with comment tokens or a continuation marker are
    // themselves counted as code-like
    let c = "/*\n* one\n* two\n*/";
    assert!(is_code_comment(c.as_bytes(), 75));
    assert!(!is_code_comment(c.as_bytes(), 80));
}

#[test]
fn test_offset_to_linecol_basic() {
    let src = "ab\ncd";
    assert_eq!(offset_to_linecol(src.as_bytes(), 0), (0, 0));
    assert_eq!(offset_to_linecol(src.as_bytes(), 3), (1, 0));
    assert_eq!(offset_to_linecol(src.as_bytes(), 5), (1, 2));
}

#[test]
fn test_offset_to_linecol_multibyte() {
    // a two-byte character advances the column once
    let src = "\u{e8}x\n\u{e8}y";
    let b = src.as_bytes();
    assert_eq!(b.len(), 7);
    assert_eq!(offset_to_linecol(b, 2), (0, 1));
    assert_eq!(offset_to_linecol(b, 3), (0, 2));
    assert_eq!(offset_to_linecol(b, 6), (1, 1));
    // an offset beyond the text reports the end position
    assert_eq!(offset_to_linecol(b, 100), (1, 2));
}

#[test]
fn test_collect_comments_preorder() {
    let tree = TreeNode {
        kind: "translation_unit".to_string(),
        start: 0,
        end: 21,
        children: vec![
            TreeNode { kind: "comment".to_string(), start: 0, end: 4, children: vec![] },
            TreeNode {
                kind: "declaration".to_string(),
                start: 5,
                end: 16,
                children: vec![TreeNode {
                    kind: "comment".to_string(),
                    start: 6,
                    end: 10,
                    children: vec![],
                }],
            },
            TreeNode { kind: "comment".to_string(), start: 17, end: 21, children: vec![] },
        ],
    };
    let mut out = Vec::new();
    collect_comments(&tree, &mut out);
    assert_eq!(out, vec![(0, 4), (6, 10), (17, 21)]);
}

#[test]
fn test_collect_comments_none() {
    let tree = TreeNode {
        kind: "translation_unit".to_string(),
        start: 0,
        end: 5,
        children: vec![TreeNode {
            kind: "declaration".to_string(),
            start: 0,
            end: 5,
            children: vec![],
        }],
    };
    let mut out = Vec::new();
    collect_comments(&tree, &mut out);
    assert_eq!(out, Vec::<(usize, usize)>::new());
}

#[test]
fn test_reconstruct_round_trip() {
    let src = "// a\n// b\nint x;\n// c\n// d\n/* multi\nline */\n// e\n";
    let comments = vec![(0, 4), (5, 9), (17, 21), (22, 26), (27, 43), (44, 48)];
    let merged = merge_adjacent_comments(src.as_bytes(), &comments);
    let rebuilt = reconstruct_source(src.as_bytes(), &merged);
    assert_eq!(rebuilt, src.as_bytes());
}
