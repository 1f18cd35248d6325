//! Indentation helpers: the indentation in front of a position, and
//! re-indenting multi-line text.
use vstd::prelude::*;

verus! {

pub open spec fn is_indent_char(c: char) -> bool {
    c == ' ' || c == '\t'
}

/// Start of the run of spaces and tabs that ends at `pos`.
pub open spec fn indent_start(text: Seq<char>, pos: int) -> int
    decreases pos,
{
    if pos <= 0 || !is_indent_char(text[pos - 1]) {
        pos
    } else {
        indent_start(text, pos - 1)
    }
}

/// The indentation of a line whose content begins at `pos`: the spaces and
/// tabs in front of `pos`, when a newline precedes them; none otherwise.
pub open spec fn leading_indent_of(text: Seq<char>, pos: int) -> Option<Seq<char>> {
    let i = indent_start(text, pos);
    if i > 0 && text[i - 1] == '\n' {
        Some(text.subrange(i, pos))
    } else {
        None
    }
}

/// `text` with `indent` inserted after every newline.
pub open spec fn reindented(text: Seq<char>, indent: Seq<char>) -> Seq<char>
    decreases text.len(),
{
    if text.len() == 0 {
        Seq::empty()
    } else if text.last() == '\n' {
        reindented(text.drop_last(), indent) + seq!['\n'] + indent
    } else {
        reindented(text.drop_last(), indent).push(text.last())
    }
}

/// The indentation in front of offset `pos` of `text`.
pub fn leading_indent(text: &Vec<char>, pos: usize) -> (r: Option<Vec<char>>)
    requires
        pos <= text@.len(),
    ensures
        r matches Some(v) ==> leading_indent_of(text@, pos as int) == Some(v@),
        r is None ==> leading_indent_of(text@, pos as int) is None,
{
    let mut i: usize = pos;
    while i > 0 && (text[i - 1] == ' ' || text[i - 1] == '\t')
        invariant
            i <= pos <= text@.len(),
            indent_start(text@, pos as int) == indent_start(text@, i as int),
        decreases i,
    {
        i = i - 1;
    }
    if i > 0 && text[i - 1] == '\n' {
        let mut out: Vec<char> = Vec::new();
        let mut j: usize = i;
        while j < pos
            invariant
                i <= j <= pos <= text@.len(),
                out@ == text@.subrange(i as int, j as int),
            decreases pos - j,
        {
            out.push(text[j]);
            j = j + 1;
            assert(out@ =~= text@.subrange(i as int, j as int));
        }
        Some(out)
    } else {
        None
    }
}

/// `text` with `indent` inserted after every newline, so that each line but
/// the first is indented.
pub fn reindent(text: &Vec<char>, indent: &Vec<char>) -> (r: Vec<char>)
    ensures
        r@ == reindented(text@, indent@),
{
    let mut out: Vec<char> = Vec::new();
    let mut i: usize = 0;
    while i < text.len()
        invariant
            i <= text@.len(),
            out@ == reindented(text@.take(i as int), indent@),
        decreases text.len() - i,
    {
        assert(text@.take(i as int + 1).drop_last() =~= text@.take(i as int));
        out.push(text[i]);
        if text[i] == '\n' {
            let mut j: usize = 0;
            let ghost base = out@;
            while j < indent.len()
                invariant
                    j <= indent@.len(),
                    out@ == base + indent@.take(j as int),
                decreases indent.len() - j,
            {
                out.push(indent[j]);
                j = j + 1;
                assert(out@ =~= base + indent@.take(j as int));
            }
            assert(out@ =~= reindented(text@.take(i as int + 1), indent@));
        } else {
            assert(out@ =~= reindented(text@.take(i as int + 1), indent@));
        }
        i = i + 1;
    }
    assert(text@.take(i as int) =~= text@);
    out
}

} // verus!
