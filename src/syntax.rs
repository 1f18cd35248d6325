//! The syntax collaborator: a deterministic tokenizer over file text, and the
//! lookup helpers that find tokens by offset or range.
use vstd::prelude::*;
use crate::input::{TextRange, copy_vec};

verus! {

/// Class of a character: 0 whitespace, 1 word character, 2 punctuation.
pub open spec fn char_class(c: char) -> int {
    if c == ' ' || c == '\t' || c == '\n' || c == '\r' {
        0
    } else if ('a' <= c && c <= 'z') || ('A' <= c && c <= 'Z') || ('0' <= c && c <= '9') || c
        == '_' {
        1
    } else {
        2
    }
}

fn class_of(c: char) -> (r: u8)
    ensures
        r as int == char_class(c),
{
    if c == ' ' || c == '\t' || c == '\n' || c == '\r' {
        0
    } else if ('a' <= c && c <= 'z') || ('A' <= c && c <= 'Z') || ('0' <= c && c <= '9') || c
        == '_' {
        1
    } else {
        2
    }
}

/// A token starts at `i` (0 < i < len): the class changes there, or the
/// character is punctuation, which always stands alone.
pub open spec fn is_boundary(s: Seq<char>, i: int) -> bool {
    char_class(s[i - 1]) != char_class(s[i]) || char_class(s[i]) == 2
}

/// `toks` are non-empty ranges, each starting where the previous one ends.
pub open spec fn contiguous(toks: Seq<TextRange>) -> bool {
    &&& forall|k: int| 0 <= k < toks.len() ==> #[trigger] toks[k].start < toks[k].end
    &&& forall|k: int| 0 <= k < toks.len() - 1 ==> #[trigger] toks[k].end == toks[k + 1].start
}

/// `toks` are non-empty ranges that tile `[0, n)` in order.
pub open spec fn tiles(toks: Seq<TextRange>, n: int) -> bool {
    &&& (toks.len() == 0 <==> n == 0)
    &&& (toks.len() > 0 ==> toks[0].start == 0 && toks.last().end == n)
    &&& contiguous(toks)
}

/// `toks` is the tokenization of `s`: a tiling whose token starts are exactly
/// the boundaries of `s`.
pub open spec fn is_tokenization(s: Seq<char>, toks: Seq<TextRange>) -> bool {
    &&& tiles(toks, s.len() as int)
    &&& forall|k: int| 0 < k < toks.len() ==> is_boundary(s, #[trigger] toks[k].start as int)
    &&& forall|k: int, j: int|
        #![trigger toks[k], is_boundary(s, j)]
        0 <= k < toks.len() && toks[k].start < j < toks[k].end ==> !is_boundary(s, j)
}

/// Result of a parse: the text and its tokens.
#[derive(Debug)]
pub struct Parse {
    pub text: Vec<char>,
    pub tokens: Vec<TextRange>,
}

impl Parse {
    pub open spec fn wf(&self) -> bool {
        is_tokenization(self.text@, self.tokens@)
    }

    /// A copy of this parse.
    pub fn duplicate(&self) -> (r: Parse)
        ensures
            r.text@ == self.text@,
            r.tokens@ == self.tokens@,
    {
        let mut tokens: Vec<TextRange> = Vec::new();
        let mut i: usize = 0;
        while i < self.tokens.len()
            invariant
                i <= self.tokens.len(),
                tokens@ == self.tokens@.take(i as int),
            decreases self.tokens.len() - i,
        {
            tokens.push(self.tokens[i]);
            i = i + 1;
            assert(tokens@ =~= self.tokens@.take(i as int));
        }
        assert(tokens@ =~= self.tokens@);
        Parse { text: copy_vec(&self.text), tokens }
    }
}

/// Appending a token that starts where the tiling ends, at a boundary, and
/// holds no boundary inside keeps the token starts exactly the boundaries.
proof fn lemma_push_token(s: Seq<char>, toks: Seq<TextRange>, t: TextRange, new: Seq<TextRange>)
    requires
        new == toks.push(t),
        toks.len() > 0 ==> toks.last().end == t.start && is_boundary(s, t.start as int),
        forall|k: int| 0 <= k < toks.len() - 1 ==> #[trigger] toks[k].end == toks[k + 1].start,
        forall|k: int| 0 < k < toks.len() ==> is_boundary(s, #[trigger] toks[k].start as int),
        forall|k: int, j: int|
            #![trigger toks[k], is_boundary(s, j)]
            0 <= k < toks.len() && toks[k].start < j < toks[k].end ==> !is_boundary(s, j),
        forall|j: int| t.start < j < t.end ==> !#[trigger] is_boundary(s, j),
    ensures
        forall|k: int| 0 <= k < new.len() - 1 ==> #[trigger] new[k].end == new[k + 1].start,
        forall|k: int| 0 < k < new.len() ==> is_boundary(s, #[trigger] new[k].start as int),
        forall|k: int, j: int|
            #![trigger new[k], is_boundary(s, j)]
            0 <= k < new.len() && new[k].start < j < new[k].end ==> !is_boundary(s, j),
{
    assert forall|k: int, j: int|
        #![trigger new[k], is_boundary(s, j)]
        0 <= k < new.len() && new[k].start < j < new[k].end implies !is_boundary(s, j) by {
        if k < toks.len() {
            assert(new[k] == toks[k]);
        }
    }
}

/// Tokenizes `text`: maximal runs of whitespace, maximal runs of word
/// characters, and single punctuation characters. The same text always gives
/// the same parse.
pub fn parse_text(text: &Vec<char>) -> (r: Parse)
    requires
        text@.len() <= u32::MAX,
    ensures
        r.text@ == text@,
        r.wf(),
{
    let n = text.len();
    let mut tokens: Vec<TextRange> = Vec::new();
    if n == 0 {
        return Parse { text: copy_vec(text), tokens };
    }
    let mut cur: usize = 0;
    let mut i: usize = 1;
    while i < n
        invariant
            n == text@.len(),
            n <= u32::MAX,
            cur < i <= n,
            tiles(tokens@, cur as int),
            cur > 0 ==> is_boundary(text@, cur as int),
            forall|k: int| 0 < k < tokens@.len() ==> is_boundary(text@, #[trigger] tokens@[k].start as int),
            forall|k: int, j: int|
                #![trigger tokens@[k], is_boundary(text@, j)]
                0 <= k < tokens@.len() && tokens@[k].start < j < tokens@[k].end ==> !is_boundary(text@, j),
            forall|j: int| cur < j < i ==> !#[trigger] is_boundary(text@, j),
        decreases n - i,
    {
        let a = class_of(text[i - 1]);
        let b = class_of(text[i]);
        if a != b || b == 2 {
            let ghost old_toks = tokens@;
            tokens.push(TextRange { start: cur as u32, end: i as u32 });
            proof {
                lemma_push_token(text@, old_toks, tokens@.last(), tokens@);
            }
            cur = i;
        }
        i = i + 1;
    }
    let ghost old_toks = tokens@;
    tokens.push(TextRange { start: cur as u32, end: n as u32 });
    proof {
        lemma_push_token(text@, old_toks, tokens@.last(), tokens@);
    }
    Parse { text: copy_vec(text), tokens }
}

/// True when the closed interval of `t` holds `offset`.
pub open spec fn touches(t: TextRange, offset: int) -> bool {
    t.start <= offset <= t.end
}

/// The token(s) at an offset, by index into the token list.
#[derive(Clone, Copy, Debug, PartialEq, Eq, Structural)]
pub enum TokenAtOffset {
    Nothing,
    Single(usize),
    Between(usize, usize),
}

pub proof fn lemma_tiles_ordered(toks: Seq<TextRange>, a: int, b: int)
    requires
        contiguous(toks),
        0 <= a < b < toks.len(),
    ensures
        toks[a].end <= toks[b].start,
    decreases b - a,
{
    if b > a + 1 {
        lemma_tiles_ordered(toks, a, b - 1);
        assert(toks[b - 1].end == toks[b].start);
    }
}

/// Finds the tokens touching `offset`. Where the offset sits between two
/// tokens both are returned, left first; no token is ever silently dropped.
pub fn token_at_offset(tokens: &Vec<TextRange>, offset: u32) -> (r: TokenAtOffset)
    requires
        contiguous(tokens@),
    ensures
        r == TokenAtOffset::Nothing <==> forall|k: int| 0 <= k < tokens@.len() ==> !touches(#[trigger] tokens@[k], offset as int),
        r matches TokenAtOffset::Single(i) ==> i < tokens@.len() && touches(tokens@[i as int], offset as int)
            && forall|k: int| 0 <= k < tokens@.len() && k != i ==> !touches(#[trigger] tokens@[k], offset as int),
        r matches TokenAtOffset::Between(i, j) ==> j == i + 1 && j < tokens@.len()
            && tokens@[i as int].end == offset && tokens@[j as int].start == offset
            && forall|k: int| 0 <= k < tokens@.len() && k != i && k != j ==> !touches(#[trigger] tokens@[k], offset as int),
{
    let mut i: usize = 0;
    while i < tokens.len()
        invariant
            i <= tokens@.len(),
            contiguous(tokens@),
            forall|k: int| 0 <= k < i ==> !touches(#[trigger] tokens@[k], offset as int),
        decreases tokens.len() - i,
    {
        if tokens[i].touches(offset) {
            if i + 1 < tokens.len() && tokens[i + 1].touches(offset) {
                proof {
                    assert forall|k: int| 0 <= k < tokens@.len() && k != i && k != i + 1 implies !touches(#[trigger] tokens@[k], offset as int) by {
                        if k > i + 1 {
                            lemma_tiles_ordered(tokens@, i + 1, k);
                        }
                    }
                }
                return TokenAtOffset::Between(i, i + 1);
            }
            proof {
                assert forall|k: int| 0 <= k < tokens@.len() && k != i implies !touches(#[trigger] tokens@[k], offset as int) by {
                    if k > i + 1 {
                        lemma_tiles_ordered(tokens@, i + 1, k);
                    }
                }
            }
            return TokenAtOffset::Single(i);
        }
        i = i + 1;
    }
    TokenAtOffset::Nothing
}

/// An element of the tree: one of its tokens, by index, or the file itself.
#[derive(Clone, Copy, Debug, PartialEq, Eq, Structural)]
pub enum SyntaxElement {
    Token(usize),
    File,
}

/// The smallest element that covers `range`: the first token whose range
/// contains all of it, or else the file, whose range contains every token.
pub fn covering_element(tokens: &Vec<TextRange>, range: TextRange) -> (r: SyntaxElement)
    ensures
        r matches SyntaxElement::Token(i) ==> i < tokens@.len()
            && tokens@[i as int].start <= range.start && range.end <= tokens@[i as int].end
            && forall|k: int| 0 <= k < i ==> !(tokens@[k].start <= range.start && range.end <= #[trigger] tokens@[k].end),
        r is File ==> forall|k: int| 0 <= k < tokens@.len() ==> !(tokens@[k].start <= range.start && range.end <= #[trigger] tokens@[k].end),
{
    let mut i: usize = 0;
    while i < tokens.len()
        invariant
            i <= tokens@.len(),
            forall|k: int| 0 <= k < i ==> !(tokens@[k].start <= range.start && range.end <= #[trigger] tokens@[k].end),
        decreases tokens.len() - i,
    {
        if range.is_subrange_of(&tokens[i]) {
            return SyntaxElement::Token(i);
        }
        i = i + 1;
    }
    SyntaxElement::File
}

/// Kind of token `t` of `s`: the class of its characters.
pub open spec fn token_kind(s: Seq<char>, t: TextRange) -> int {
    char_class(s[t.start as int])
}

/// Every token of a tokenization lies within the text.
pub proof fn lemma_tokens_in_text(s: Seq<char>, toks: Seq<TextRange>)
    requires
        is_tokenization(s, toks),
    ensures
        forall|k: int| 0 <= k < toks.len() ==> (#[trigger] toks[k]).end <= s.len(),
{
    assert forall|k: int| 0 <= k < toks.len() implies (#[trigger] toks[k]).end <= s.len() by {
        if k < toks.len() - 1 {
            lemma_tiles_ordered(toks, k, toks.len() - 1);
        }
    }
}

/// The first token touching `offset` whose kind is `kind`, if any.
pub fn node_at_offset(text: &Vec<char>, tokens: &Vec<TextRange>, offset: u32, kind: u8) -> (r: Option<usize>)
    requires
        is_tokenization(text@, tokens@),
    ensures
        r matches Some(i) ==> i < tokens@.len() && touches(tokens@[i as int], offset as int)
            && token_kind(text@, tokens@[i as int]) == kind as int
            && forall|k: int| 0 <= k < i ==> !(touches(#[trigger] tokens@[k], offset as int) && token_kind(text@, tokens@[k]) == kind as int),
        r is None ==> forall|k: int| 0 <= k < tokens@.len() ==> !(touches(#[trigger] tokens@[k], offset as int) && token_kind(text@, tokens@[k]) == kind as int),
{
    proof {
        lemma_tokens_in_text(text@, tokens@);
    }
    let mut i: usize = 0;
    while i < tokens.len()
        invariant
            i <= tokens@.len(),
            forall|k: int| 0 <= k < tokens@.len() ==> (#[trigger] tokens@[k]).end <= text@.len() && tokens@[k].start < tokens@[k].end,
            forall|k: int| 0 <= k < i ==> !(touches(#[trigger] tokens@[k], offset as int) && token_kind(text@, tokens@[k]) == kind as int),
        decreases tokens.len() - i,
    {
        let t = tokens[i];
        if t.touches(offset) && class_of(text[t.start as usize]) == kind {
            return Some(i);
        }
        i = i + 1;
    }
    None
}

} // verus!
