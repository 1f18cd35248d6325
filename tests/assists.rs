use ra_db::assist::{Assist, AssistCtx, AssistId};
use ra_db::db::SourceDatabase;
use ra_db::edit::{AssistBuilder, OverlappingEdit};
use ra_db::indent::{leading_indent, reindent};
use ra_db::input::{FileId, FileRange, TextRange};
use ra_db::syntax::{SyntaxElement, TokenAtOffset};

fn chars(s: &str) -> Vec<char> {
    s.chars().collect()
}

fn r(start: u32, end: u32) -> TextRange {
    TextRange::from_to(start, end)
}

fn db_with(text: &str) -> SourceDatabase {
    let mut db = SourceDatabase::new();
    db.set_file_text(FileId(0), chars(text));
    db
}

fn frange(start: u32, end: u32) -> FileRange {
    FileRange { file_id: FileId(0), range: r(start, end) }
}

fn run(db: &mut SourceDatabase, compute: bool) -> Assist {
    let mut ctx = AssistCtx::with_ctx(db, frange(3, 4), compute).ok().unwrap();
    ctx.add_action(AssistId(String::from("flip")), String::from("Flip"), |mut b: AssistBuilder| {
        b.replace(r(3, 4), chars("g")).unwrap();
        b.set_cursor(3);
        b
    });
    ctx.add_action(AssistId(String::from("wrap")), String::from("Wrap"), |mut b: AssistBuilder| {
        b.insert(0, chars("(")).unwrap();
        b.target(r(0, 9));
        b
    });
    ctx.build().unwrap()
}

fn ids(a: &Assist) -> Vec<String> {
    match a {
        Assist::Unresolved(v) => v.iter().map(|l| l.id.0.clone()).collect(),
        Assist::Resolved(v) => v.iter().map(|p| p.0.id.0.clone()).collect(),
    }
}

#[test]
fn reindent_multiline_replacement() {
    let text = chars("fn f() {\n    foo\n}");
    let mut b = AssistBuilder::new();
    b.replace_node_and_indent(&text, r(13, 16), chars("a\nb")).unwrap();
    let action = b.build();
    assert_eq!(action.edit.len(), 1);
    assert_eq!(action.edit[0].delete, r(13, 16));
    assert_eq!(action.edit[0].insert, chars("a\n    b"));
}

#[test]
fn replace_node_without_indent_keeps_text() {
    let text = chars("foo");
    let mut b = AssistBuilder::new();
    b.replace_node_and_indent(&text, r(0, 3), chars("a\nb")).unwrap();
    assert_eq!(b.build().edit[0].insert, chars("a\nb"));
}

#[test]
fn leading_indent_and_reindent_helpers() {
    let text = chars("x\n\t  y");
    assert_eq!(leading_indent(&text, 5), Some(chars("\t  ")));
    assert_eq!(leading_indent(&text, 0), None);
    assert_eq!(leading_indent(&chars("ab"), 1), None);
    assert_eq!(reindent(&chars("a\nb\nc"), &chars("  ")), chars("a\n  b\n  c"));
    assert_eq!(reindent(&chars(""), &chars("  ")), chars(""));
}

#[test]
fn overlapping_edit_is_rejected() {
    let mut b = AssistBuilder::new();
    assert_eq!(b.replace(r(2, 5), chars("x")), Ok(()));
    assert_eq!(b.delete(r(4, 6)), Err(OverlappingEdit));
    assert_eq!(b.insert(3, chars("y")), Err(OverlappingEdit));
    assert_eq!(b.insert(5, chars("z")), Ok(()));
    let action = b.build();
    assert_eq!(action.edit.len(), 2);
    assert_eq!(action.edit[1].delete, r(5, 5));
}

#[test]
fn cursor_and_target_last_write_wins() {
    let mut b = AssistBuilder::new();
    b.set_cursor(1);
    b.set_cursor(4);
    b.target(r(0, 1));
    b.target(r(2, 3));
    let action = b.build();
    assert_eq!(action.cursor_position, Some(4));
    assert_eq!(action.target, Some(r(2, 3)));
    assert!(action.edit.is_empty());
}

#[test]
fn enumerate_and_compute_list_same_ids() {
    let mut db = db_with("fn f() {}");
    let listed = run(&mut db, false);
    let computed = run(&mut db, true);
    assert!(matches!(listed, Assist::Unresolved(_)));
    assert!(matches!(computed, Assist::Resolved(_)));
    assert_eq!(ids(&listed), ids(&computed));
    assert_eq!(ids(&listed), vec![String::from("flip"), String::from("wrap")]);
}

#[test]
fn enumerate_then_compute_matches_direct_compute() {
    let mut db = db_with("fn f() {}");
    let _ = run(&mut db, false);
    let two_phase = run(&mut db, true);
    let mut db2 = db_with("fn f() {}");
    let direct = run(&mut db2, true);
    match (two_phase, direct) {
        (Assist::Resolved(a), Assist::Resolved(b)) => {
            assert_eq!(a.len(), b.len());
            for i in 0..a.len() {
                assert_eq!(a[i].0.label, b[i].0.label);
                assert_eq!(a[i].1.edit.len(), b[i].1.edit.len());
                for j in 0..a[i].1.edit.len() {
                    assert_eq!(a[i].1.edit[j].delete, b[i].1.edit[j].delete);
                    assert_eq!(a[i].1.edit[j].insert, b[i].1.edit[j].insert);
                }
                assert_eq!(a[i].1.cursor_position, b[i].1.cursor_position);
                assert_eq!(a[i].1.target, b[i].1.target);
            }
        }
        _ => panic!("compute mode must resolve"),
    }
}

#[test]
fn compute_mode_builds_edits() {
    let mut db = db_with("fn f() {}");
    match run(&mut db, true) {
        Assist::Resolved(v) => {
            assert_eq!(v[0].1.edit[0].insert, chars("g"));
            assert_eq!(v[0].1.cursor_position, Some(3));
            assert_eq!(v[1].1.edit[0].delete, r(0, 0));
            assert_eq!(v[1].1.target, Some(r(0, 9)));
        }
        _ => panic!("compute mode must resolve"),
    }
}

#[test]
fn context_on_unset_file_fails() {
    let mut db = SourceDatabase::new();
    assert!(AssistCtx::with_ctx(&mut db, frange(0, 0), false).is_err());
}

#[test]
fn context_lookups_use_request_range() {
    let mut db = db_with("fn f() {}");
    let ctx = AssistCtx::with_ctx(&mut db, frange(2, 3), false).ok().unwrap();
    assert_eq!(ctx.token_at_offset(), TokenAtOffset::Between(0, 1));
    assert_eq!(ctx.covering_element(), SyntaxElement::Token(1));
    assert_eq!(ctx.covering_node_for_range(r(0, 2)), SyntaxElement::Token(0));
    assert_eq!(ctx.covering_node_for_range(r(1, 4)), SyntaxElement::File);
    assert_eq!(ctx.frange().range, r(2, 3));
}

#[test]
fn built_edits_are_ordered_by_start() {
    let mut b = AssistBuilder::new();
    b.replace(r(5, 6), chars("x")).unwrap();
    b.replace(r(0, 1), chars("y")).unwrap();
    b.insert(3, chars("a")).unwrap();
    b.insert(3, chars("b")).unwrap();
    let action = b.build();
    let starts: Vec<(u32, u32)> = action.edit.iter().map(|e| (e.delete.start, e.delete.end)).collect();
    assert_eq!(starts, vec![(0, 1), (3, 3), (3, 3), (5, 6)]);
    assert_eq!(action.edit[0].insert, chars("y"));
    assert_eq!(action.edit[1].insert, chars("a"));
    assert_eq!(action.edit[2].insert, chars("b"));
    assert_eq!(action.edit[3].insert, chars("x"));
}

#[test]
fn node_at_offset_picks_token_of_requested_kind() {
    let mut db = db_with("fn f() {}");
    let ctx = AssistCtx::with_ctx(&mut db, frange(2, 2), false).ok().unwrap();
    assert_eq!(ctx.node_at_offset(1), Some(0));
    assert_eq!(ctx.node_at_offset(0), Some(1));
    assert_eq!(ctx.node_at_offset(2), None);
}
