use ra_db::db::{
    crate_id_for_crate_root, crates_for_files, CheckCanceled, CrateGraph, QueryError, SourceDatabase,
};
use ra_db::input::{Canceled, CrateId, FileId, SourceRootId, TextRange};
use ra_db::syntax::{covering_element, parse_text, token_at_offset, SyntaxElement, TokenAtOffset};

fn chars(s: &str) -> Vec<char> {
    s.chars().collect()
}

fn graph(crate_roots: Vec<FileId>) -> CrateGraph {
    CrateGraph { crate_roots, dependencies: Vec::new() }
}

fn r(start: u32, end: u32) -> TextRange {
    TextRange::from_to(start, end)
}

#[test]
fn token_between_two_tokens_returns_both() {
    let tokens = vec![r(0, 1), r(1, 2)];
    assert_eq!(token_at_offset(&tokens, 1), TokenAtOffset::Between(0, 1));
}

#[test]
fn token_inside_single_token() {
    let p = parse_text(&chars("ab"));
    assert_eq!(p.tokens, vec![r(0, 2)]);
    assert_eq!(token_at_offset(&p.tokens, 1), TokenAtOffset::Single(0));
}

#[test]
fn token_at_punctuation_boundary() {
    let p = parse_text(&chars("a+b"));
    assert_eq!(p.tokens, vec![r(0, 1), r(1, 2), r(2, 3)]);
    assert_eq!(token_at_offset(&p.tokens, 1), TokenAtOffset::Between(0, 1));
    assert_eq!(token_at_offset(&p.tokens, 3), TokenAtOffset::Single(2));
    assert_eq!(token_at_offset(&p.tokens, 4), TokenAtOffset::Nothing);
}

#[test]
fn tokenizer_splits_words_spaces_and_punctuation() {
    let p = parse_text(&chars("fn f() {}"));
    assert_eq!(
        p.tokens,
        vec![r(0, 2), r(2, 3), r(3, 4), r(4, 5), r(5, 6), r(6, 7), r(7, 8), r(8, 9)]
    );
    assert_eq!(p.text, chars("fn f() {}"));
}

#[test]
fn tokenizer_on_empty_text() {
    let p = parse_text(&Vec::new());
    assert!(p.tokens.is_empty());
    assert_eq!(token_at_offset(&p.tokens, 0), TokenAtOffset::Nothing);
}

#[test]
fn covering_element_finds_smallest_cover() {
    let p = parse_text(&chars("foo bar"));
    assert_eq!(covering_element(&p.tokens, r(4, 6)), SyntaxElement::Token(2));
    assert_eq!(covering_element(&p.tokens, r(2, 5)), SyntaxElement::File);
}

#[test]
fn end_to_end_parse_follows_edits() {
    let mut db = SourceDatabase::new();
    let f = FileId(0);
    db.set_file_text(f, chars("fn f() {}"));
    let first = db.parse(f).unwrap();
    db.set_file_text(f, chars("fn g() {}"));
    let second = db.parse(f).unwrap();
    assert_ne!(first.text, second.text);
    assert_eq!(second.text, chars("fn g() {}"));
    assert_eq!(db.revision(), 2);
}

#[test]
fn parse_twice_gives_identical_results() {
    let mut db = SourceDatabase::new();
    let f = FileId(3);
    db.set_file_text(f, chars("let x = 1;"));
    let a = db.parse(f).unwrap();
    let b = db.parse(f).unwrap();
    assert_eq!(a.text, b.text);
    assert_eq!(a.tokens, b.tokens);
    assert_eq!(db.revision(), 1);
}

#[test]
fn parse_of_unset_file_is_unknown_key() {
    let mut db = SourceDatabase::new();
    assert!(matches!(db.parse(FileId(7)), Err(QueryError::UnknownKey)));
}

#[test]
fn write_to_other_file_keeps_parse() {
    let mut db = SourceDatabase::new();
    db.set_file_text(FileId(0), chars("a b"));
    db.set_file_text(FileId(1), chars("c"));
    let a = db.parse(FileId(0)).unwrap();
    db.set_file_text(FileId(1), chars("d"));
    let b = db.parse(FileId(0)).unwrap();
    assert_eq!(a.tokens, b.tokens);
    assert_eq!(b.text, chars("a b"));
    assert_eq!(db.parse(FileId(1)).unwrap().text, chars("d"));
}

#[test]
fn stale_parse_is_canceled_and_not_cached() {
    let mut db = SourceDatabase::new();
    let f = FileId(0);
    db.set_file_text(f, chars("old"));
    let pending = db.compute_parse(f).ok().unwrap();
    db.set_file_text(f, chars("new text"));
    assert!(matches!(db.commit_parse(pending), Err(QueryError::Canceled)));
    assert_eq!(db.parse(f).unwrap().text, chars("new text"));
}

#[test]
fn fresh_parse_commits() {
    let mut db = SourceDatabase::new();
    let f = FileId(2);
    db.set_file_text(f, chars("x+y"));
    let pending = db.compute_parse(f).ok().unwrap();
    let p = db.commit_parse(pending).unwrap();
    assert_eq!(p.tokens.len(), 3);
}

#[test]
fn check_canceled_after_write() {
    let mut db = SourceDatabase::new();
    let ctx = db.start_session();
    assert_eq!(db.check_canceled(&ctx), Ok(()));
    db.set_file_text(FileId(0), chars("x"));
    assert_eq!(db.check_canceled(&ctx), Err(Canceled));
}

#[test]
fn session_read_records_and_cancels() {
    let mut db = SourceDatabase::new();
    db.set_file_text(FileId(0), chars("abc"));
    let mut ctx = db.start_session();
    assert_eq!(db.file_text(&mut ctx, FileId(0)).unwrap(), chars("abc"));
    assert!(matches!(db.file_text(&mut ctx, FileId(1)), Err(QueryError::UnknownKey)));
    db.set_file_text(FileId(0), chars("abd"));
    assert!(matches!(db.file_text(&mut ctx, FileId(0)), Err(QueryError::Canceled)));
}

#[test]
fn crate_lookup_by_root_file() {
    let roots = vec![FileId(4), FileId(9), FileId(4)];
    assert_eq!(crate_id_for_crate_root(&roots, FileId(4)), Some(CrateId(0)));
    assert_eq!(crate_id_for_crate_root(&roots, FileId(9)), Some(CrateId(1)));
    assert_eq!(crate_id_for_crate_root(&roots, FileId(5)), None);
    let files = vec![FileId(9), FileId(5), FileId(4)];
    assert_eq!(crates_for_files(&files, &roots), vec![CrateId(1), CrateId(0)]);
}

#[test]
fn source_root_crates_follow_inputs() {
    let mut db = SourceDatabase::new();
    let root = SourceRootId(0);
    db.set_source_root(root, vec![FileId(1), FileId(2)]);
    assert!(matches!(db.source_root_crates(root), Err(QueryError::UnknownKey)));
    db.set_crate_graph(graph(vec![FileId(2), FileId(3)]));
    assert_eq!(db.source_root_crates(root).unwrap(), vec![CrateId(0)]);
    db.set_file_text(FileId(2), chars("fn main() {}"));
    assert_eq!(db.source_root_crates(root).unwrap(), vec![CrateId(0)]);
    db.set_crate_graph(graph(vec![FileId(2), FileId(1)]));
    assert_eq!(db.source_root_crates(root).unwrap(), vec![CrateId(1), CrateId(0)]);
}

#[test]
fn path_and_source_root_inputs() {
    let mut db = SourceDatabase::new();
    let f = FileId(5);
    db.set_file_relative_path(f, String::from("src/lib.rs"));
    db.set_file_source_root(f, SourceRootId(2));
    let mut ctx = db.start_session();
    assert_eq!(db.file_relative_path(&mut ctx, f).unwrap(), "src/lib.rs");
    assert_eq!(db.file_source_root(&mut ctx, f).unwrap(), SourceRootId(2));
    assert!(matches!(db.file_source_root(&mut ctx, FileId(6)), Err(QueryError::UnknownKey)));
    assert_eq!(ctx.revision(), 2);
    db.set_file_source_root(f, SourceRootId(3));
    assert!(matches!(db.file_relative_path(&mut ctx, f), Err(QueryError::Canceled)));
    let mut ctx2 = db.start_session();
    assert_eq!(db.file_source_root(&mut ctx2, f).unwrap(), SourceRootId(3));
}

#[test]
fn rewriting_same_text_recomputes_and_other_writes_keep_cache() {
    let mut db = SourceDatabase::new();
    let f = FileId(0);
    db.set_file_text(f, chars("a b"));
    db.set_source_root(SourceRootId(0), vec![f]);
    db.set_crate_graph(graph(vec![f]));
    let p1 = db.parse(f).unwrap();
    let c1 = db.source_root_crates(SourceRootId(0)).unwrap();
    db.set_file_text(f, chars("a b"));
    db.set_file_relative_path(f, String::from("lib.rs"));
    let p2 = db.parse(f).unwrap();
    assert_eq!(p1.tokens, p2.tokens);
    assert_eq!(db.source_root_crates(SourceRootId(0)).unwrap(), c1);
    db.set_crate_graph(graph(vec![FileId(9), f]));
    assert_eq!(db.source_root_crates(SourceRootId(0)).unwrap(), vec![CrateId(1)]);
}

#[test]
fn crate_graph_keeps_dependency_edges() {
    let mut db = SourceDatabase::new();
    db.set_crate_graph(CrateGraph {
        crate_roots: vec![FileId(0), FileId(1)],
        dependencies: vec![(CrateId(0), CrateId(1))],
    });
    let mut ctx = db.start_session();
    let g = db.crate_graph(&mut ctx).ok().unwrap();
    assert_eq!(g.crate_roots, vec![FileId(0), FileId(1)]);
    assert_eq!(g.dependencies, vec![(CrateId(0), CrateId(1))]);
}
