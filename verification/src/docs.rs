//! Doc-comment sidecar. [`DocTable`] collects every `//` comment in a
//! source file and answers "what comment, if any, is directly above this
//! declaration?" without touching the syntax tree.

use std::ops::Range;
use vstd::prelude::*;
use vstd::string::StringSliceAdditionalSpecFns;
use vstd::utf8::{encode_utf8, valid_utf8};

use crate::lexer::{lex_all, lexemes, Lexeme, Token};

verus! {

/// The spans of the comments among `toks`, in order.
pub open spec fn remark_spans(toks: Seq<(Lexeme, int, int)>) -> Seq<(int, int)>
    decreases toks.len(),
{
    if toks.len() == 0 {
        seq![]
    } else if toks.last().0 is Remark {
        remark_spans(toks.drop_last()).push((toks.last().1, toks.last().2))
    } else {
        remark_spans(toks.drop_last())
    }
}

/// The spans of all `//` comments of the source bytes `b`, in order.
pub open spec fn comment_spans(b: Seq<u8>) -> Seq<(int, int)> {
    remark_spans(lexemes(b, 0).0)
}

/// The number of newline bytes in `s`.
pub open spec fn count_newlines(s: Seq<u8>) -> nat
    decreases s.len(),
{
    if s.len() == 0 {
        0
    } else {
        count_newlines(s.drop_last()) + if s.last() == 10 { 1nat } else { 0nat }
    }
}

/// Zero-based line number of byte offset `off` (offsets past the end
/// count as the end).
pub open spec fn line_of_spec(b: Seq<u8>, off: int) -> nat {
    count_newlines(b.subrange(0, if off < b.len() { off } else { b.len() as int }))
}

/// The offset where the line holding offset `s` starts: just after the
/// last newline before `s`, or `0`.
pub open spec fn line_start(b: Seq<u8>, s: int) -> int
    decreases s,
{
    if s <= 0 {
        0
    } else if b[s - 1] == 10 {
        s
    } else {
        line_start(b, s - 1)
    }
}

/// Nothing but spaces and tabs precede offset `s` on its line.
pub open spec fn standalone(b: Seq<u8>, s: int) -> bool {
    forall|k: int| line_start(b, s) <= k < s ==> (#[trigger] b[k] == 32 || b[k] == 9)
}

/// A comment's text without its `//` and at most one following space.
pub open spec fn strip_spec(t: Seq<u8>) -> Seq<u8> {
    let k1: int = if t.len() >= 2 && t[0] == 47 && t[1] == 47 { 2 } else { 0 };
    let k2: int = if k1 < t.len() && t[k1] == 32 { k1 + 1 } else { k1 };
    t.subrange(k2, t.len() as int)
}

/// Walking the first `k` comments bottom-up, the stripped lines of the
/// block that ends on line `expected`: comments ending after `decl` are
/// passed over, and the block stops at the first comment that is not on
/// the expected line or shares its line with code.
pub open spec fn block_lines(b: Seq<u8>, cs: Seq<(int, int)>, decl: int, k: int, expected: int) -> Seq<Seq<u8>>
    decreases k,
{
    if k <= 0 || k > cs.len() {
        seq![]
    } else {
        let (s, e) = cs[k - 1];
        if e > decl {
            block_lines(b, cs, decl, k - 1, expected)
        } else if line_of_spec(b, s) == expected && standalone(b, s) {
            seq![strip_spec(b.subrange(s, e))] + if expected == 0 {
                Seq::<Seq<u8>>::empty()
            } else {
                block_lines(b, cs, decl, k - 1, expected - 1)
            }
        } else {
            seq![]
        }
    }
}

/// Lines joined with newline bytes.
pub open spec fn join_lines(ls: Seq<Seq<u8>>) -> Seq<u8>
    decreases ls.len(),
{
    if ls.len() == 0 {
        seq![]
    } else if ls.len() == 1 {
        ls[0]
    } else {
        join_lines(ls.drop_last()) + seq![10u8] + ls.last()
    }
}

/// The doc comment above the declaration that starts at `decl`, as bytes.
pub open spec fn doc_above(b: Seq<u8>, decl: int) -> Option<Seq<u8>> {
    let cs = comment_spans(b);
    let line = line_of_spec(b, decl);
    if cs.len() == 0 || line == 0 {
        None
    } else {
        let lines = block_lines(b, cs, decl, cs.len() as int, line - 1);
        if lines.len() == 0 {
            None
        } else {
            Some(join_lines(lines.reverse()))
        }
    }
}

/// A sorted list of the line comments of a source file, with a lookup
/// for the contiguous `//` block directly above a declaration.
#[derive(Debug, Clone)]
pub struct DocTable {
    /// `(span, raw text)` for every comment, in source order; the text
    /// includes the leading `//`.
    comments: Vec<(Range<usize>, String)>,
}

impl DocTable {
    /// This table holds exactly the comments of the source bytes `b`.
    pub closed spec fn describes(&self, b: Seq<u8>) -> bool {
        &&& self.comments@.len() == comment_spans(b).len()
        &&& forall|k: int| 0 <= k < self.comments@.len() ==> {
            &&& (#[trigger] self.comments@[k]).0.start == comment_spans(b)[k].0
            &&& self.comments@[k].0.end == comment_spans(b)[k].1
            &&& encode_utf8(self.comments@[k].1@) == b.subrange(
                comment_spans(b)[k].0,
                comment_spans(b)[k].1,
            )
        }
    }

    /// The recorded comments, in order: each span and its text.
    pub closed spec fn spec_comments(&self) -> Seq<((int, int), Seq<char>)> {
        self.comments@.map_values(
            |c: (Range<usize>, String)| ((c.0.start as int, c.0.end as int), c.1@),
        )
    }
}

/// A table that [`DocTable::build`] made from the source bytes `b` holds, in
/// source order, exactly the `//` comments the lexer finds in `b`: each
/// comment's span, and its text as written there (the `//` included).
pub proof fn built_tables_hold_the_comments(t: DocTable, b: Seq<u8>)
    requires
        t.describes(b),
    ensures
        t.spec_comments().len() == comment_spans(b).len(),
        forall|k: int|
            0 <= k < comment_spans(b).len() ==> {
                &&& (#[trigger] t.spec_comments()[k]).0 == comment_spans(b)[k]
                &&& encode_utf8(t.spec_comments()[k].1) == b.subrange(
                    comment_spans(b)[k].0,
                    comment_spans(b)[k].1,
                )
            },
{
    assert forall|k: int| 0 <= k < comment_spans(b).len() implies {
        &&& (#[trigger] t.spec_comments()[k]).0 == comment_spans(b)[k]
        &&& encode_utf8(t.spec_comments()[k].1) == b.subrange(
            comment_spans(b)[k].0,
            comment_spans(b)[k].1,
        )
    } by {
        assert(t.comments@[k].0.start == comment_spans(b)[k].0);
    }
}

} // verus!

verus! {

/// The facts about lexemes that the comment table relies on.
pub open spec fn lexeme_facts(b: Seq<u8>, toks: Seq<(Lexeme, int, int)>) -> bool {
    forall|j: int|
        0 <= j < toks.len() ==> {
            &&& (#[trigger] toks[j]).0 is Remark ==> {
                &&& 0 <= toks[j].1
                &&& toks[j].1 + 2 <= toks[j].2 <= b.len()
                &&& b[toks[j].1] == 47
                &&& b[toks[j].1 + 1] == 47
            }
            &&& toks[j].0 matches Lexeme::Fixed(k) ==> !(k is Comment)
        }
}

proof fn lemma_lexeme_facts(b: Seq<u8>, i: int)
    requires
        0 <= i,
    ensures
        lexeme_facts(b, lexemes(b, i).0),
    decreases b.len() - i,
{
    if i < b.len() {
        let (lx, e) = crate::lexer::scan_at(b, i);
        crate::lexer::lemma_scan_at(b, i);
        lemma_lexeme_facts(b, e);
        crate::lexer::lemma_fixed_not_comment(b, i);
        let rest = lexemes(b, e);
        if !(lx is Blank) && !crate::lexer::is_error_lexeme(b, lx, i, e) {
            let all = seq![(lx, i, e)] + rest.0;
            assert forall|j: int| 0 <= j < all.len() implies {
                &&& (#[trigger] all[j]).0 is Remark ==> {
                    &&& 0 <= all[j].1
                    &&& all[j].1 + 2 <= all[j].2 <= b.len()
                    &&& b[all[j].1] == 47
                    &&& b[all[j].1 + 1] == 47
                }
                &&& all[j].0 matches Lexeme::Fixed(k) ==> !(k is Comment)
            } by {
                if j > 0 {
                    assert(all[j] == rest.0[j - 1]);
                } else {
                    if lx is Remark {
                        crate::lexer::lemma_line_run_pub(b, i + 2);
                        assert(b[i] == 47 && i + 1 < b.len() && b[i + 1] == 47);
                    }
                }
            }
        }
    }
}

proof fn lemma_remark_spans(b: Seq<u8>, toks: Seq<(Lexeme, int, int)>)
    requires
        lexeme_facts(b, toks),
    ensures
        forall|k: int|
            0 <= k < remark_spans(toks).len() ==> {
                &&& 0 <= (#[trigger] remark_spans(toks)[k]).0
                &&& remark_spans(toks)[k].0 + 2 <= remark_spans(toks)[k].1 <= b.len()
                &&& b[remark_spans(toks)[k].0] == 47
                &&& b[remark_spans(toks)[k].0 + 1] == 47
            },
    decreases toks.len(),
{
    if toks.len() > 0 {
        let d = toks.drop_last();
        assert forall|j: int| 0 <= j < d.len() implies #[trigger] d[j] == toks[j] by {}
        assert(lexeme_facts(b, d));
        lemma_remark_spans(b, d);
        assert(toks.last() == toks[toks.len() - 1]);
        let x = toks[toks.len() - 1];
        if x.0 is Remark {
            let r = remark_spans(toks);
            assert(r == remark_spans(d).push((x.1, x.2)));
            assert forall|k: int| 0 <= k < r.len() implies {
                &&& 0 <= (#[trigger] r[k]).0
                &&& r[k].0 + 2 <= r[k].1 <= b.len()
                &&& b[r[k].0] == 47
                &&& b[r[k].0 + 1] == 47
            } by {
                if k < r.len() - 1 {
                    assert(r[k] == remark_spans(d)[k]);
                }
            }
        }
    }
}

proof fn lemma_encode_concat(a: Seq<char>, c: Seq<char>)
    ensures
        encode_utf8(a + c) == encode_utf8(a) + encode_utf8(c),
    decreases a.len(),
{
    if a.len() == 0 {
        assert(a + c =~= c);
        assert(encode_utf8(a) =~= Seq::<u8>::empty());
        assert(encode_utf8(a) + encode_utf8(c) =~= encode_utf8(c));
    } else {
        assert((a + c).drop_first() =~= a.drop_first() + c);
        assert((a + c)[0] == a[0]);
        lemma_encode_concat(a.drop_first(), c);
        assert(encode_utf8(a + c) =~= encode_utf8(a) + encode_utf8(c));
    }
}

proof fn lemma_encode_newline()
    ensures
        encode_utf8("\n"@) == seq![10u8],
{
    reveal_strlit("\n");
    assert("\n"@ =~= seq!['\n']);
    assert(vstd::utf8::is_ascii_chars("\n"@));
    vstd::utf8::is_ascii_chars_encode_utf8("\n"@);
    assert(encode_utf8("\n"@) =~= seq![10u8]);
}

/// Zero-based line number of the byte offset `offset` in `source`
/// (offsets past the end count as the end).
fn line_of(source: &str, offset: usize) -> (r: usize)
    requires
        offset >= source.spec_bytes().len() || vstd::utf8::is_char_boundary(
            source.spec_bytes(),
            offset as int,
        ),
    ensures
        r == line_of_spec(source.spec_bytes(), offset as int),
{
    let b = source.as_bytes();
    let end = if offset < b.len() { offset } else { b.len() };
    let mut count: usize = 0;
    let mut k: usize = 0;
    assert(b@.subrange(0, 0) =~= Seq::<u8>::empty());
    while k < end
        invariant
            end <= b@.len(),
            k <= end,
            count <= k,
            count == count_newlines(b@.subrange(0, k as int)),
        decreases end - k,
    {
        assert(b@.subrange(0, k + 1).drop_last() =~= b@.subrange(0, k as int));
        if b[k] == 10 {
            count += 1;
        }
        k += 1;
    }
    count
}

/// True if only spaces and tabs precede `comment_start` on its line, i.e.
/// the comment does not trail after code.
fn is_standalone_comment(source: &str, comment_start: usize) -> (r: bool)
    requires
        comment_start <= source.spec_bytes().len(),
        vstd::utf8::is_char_boundary(source.spec_bytes(), comment_start as int),
    ensures
        r == standalone(source.spec_bytes(), comment_start as int),
{
    let b = source.as_bytes();
    let mut ls = comment_start;
    while ls > 0 && b[ls - 1] != 10
        invariant
            ls <= comment_start <= b@.len(),
            line_start(b@, comment_start as int) == line_start(b@, ls as int),
        decreases ls,
    {
        ls -= 1;
    }
    assert(line_start(b@, ls as int) == ls);
    let mut k = ls;
    while k < comment_start
        invariant
            ls <= k <= comment_start <= b@.len(),
            b@ == source.spec_bytes(),
            ls == line_start(b@, comment_start as int),
            forall|m: int| ls <= m < k ==> (#[trigger] b@[m] == 32 || b@[m] == 9),
        decreases comment_start - k,
    {
        if b[k] != 32 && b[k] != 9 {
            assert(!(b@[k as int] == 32 || b@[k as int] == 9));
            return false;
        }
        k += 1;
    }
    true
}

/// Strips the `//` prefix and one optional following space.
pub fn strip_slashes(text: &str) -> (r: String)
    ensures
        encode_utf8(r@) == strip_spec(text.spec_bytes()),
{
    let b = text.as_bytes();
    let k1: usize = if b.len() >= 2 && b[0] == 47 && b[1] == 47 { 2 } else { 0 };
    let k2: usize = if k1 < b.len() && b[k1] == 32 { k1 + 1 } else { k1 };
    proof {
        vstd::utf8::encode_utf8_valid_utf8(text@);
        if k2 == 0 {
            vstd::utf8::is_char_boundary_start_end_of_seq(b@);
        } else {
            crate::lexer::lemma_after_ascii(b@, k2 - 1);
        }
    }
    let (_, rest) = text.split_at(k2);
    let r = rest.to_owned();
    r
}

impl DocTable {
    /// Builds the table by lexing `source` with comments preserved.
    pub fn build(source: &str) -> (r: DocTable)
        ensures
            r.describes(source.spec_bytes()),
    {
        let (tokens, _errors) = lex_all(source);
        let ghost b = source.spec_bytes();
        let ghost lx = lexemes(b, 0).0;
        proof {
            lemma_lexeme_facts(b, 0);
        }
        let mut comments: Vec<(Range<usize>, String)> = Vec::new();
        let mut k: usize = 0;
        assert(lx.take(0) =~= Seq::<(Lexeme, int, int)>::empty());
        while k < tokens.len()
            invariant
                crate::lexer::tokens_match(b, tokens@, lx),
                lexeme_facts(b, lx),
                k <= tokens@.len(),
                comments@.len() == remark_spans(lx.take(k as int)).len(),
                forall|m: int|
                    0 <= m < comments@.len() ==> {
                        &&& (#[trigger] comments@[m]).0.start == remark_spans(lx.take(k as int))[m].0
                        &&& comments@[m].0.end == remark_spans(lx.take(k as int))[m].1
                        &&& encode_utf8(comments@[m].1@) == b.subrange(
                            remark_spans(lx.take(k as int))[m].0,
                            remark_spans(lx.take(k as int))[m].1,
                        )
                    },
            decreases tokens@.len() - k,
        {
            let ghost before = lx.take(k as int);
            let ghost after = lx.take(k + 1);
            assert(after.drop_last() =~= before);
            assert(after.last() == lx[k as int]);
            assert(tokens@[k as int].1.start == lx[k as int].1);
            let (tok, span) = &tokens[k];
            match tok {
                Token::Comment(text) => {
                    comments.push((Range { start: span.start, end: span.end }, text.clone()));
                },
                _ => {},
            }
            k += 1;
        }
        assert(lx.take(tokens@.len() as int) =~= lx);
        DocTable { comments }
    }

    /// The contiguous block of `//` lines directly above the declaration
    /// starting at byte offset `decl_start`, each line stripped of its
    /// `//` and one optional space, joined with newlines. `None` when no
    /// comment sits directly above (a blank line or code breaks the block).
    pub fn lookup_above(&self, source: &str, decl_start: usize) -> (r: Option<String>)
        requires
            self.describes(source.spec_bytes()),
            decl_start >= source.spec_bytes().len() || vstd::utf8::is_char_boundary(
                source.spec_bytes(),
                decl_start as int,
            ),
        ensures
            match doc_above(source.spec_bytes(), decl_start as int) {
                None => r is None,
                Some(t) => r matches Some(s) && encode_utf8(s@) == t,
            },
    {
        let ghost b = source.spec_bytes();
        let ghost cs = comment_spans(b);
        if self.comments.len() == 0 {
            return None;
        }
        let decl_line = line_of(source, decl_start);
        if decl_line == 0 {
            return None;
        }
        proof {
            lemma_lexeme_facts(b, 0);
            lemma_remark_spans(b, lexemes(b, 0).0);
        }
        let ghost total = block_lines(b, cs, decl_start as int, cs.len() as int, decl_line - 1);
        let mut expected: usize = decl_line - 1;
        let mut collected: Vec<String> = Vec::new();
        let mut k: usize = self.comments.len();
        let mut done = false;
        while k > 0 && !done
            invariant
                self.describes(b),
                cs == comment_spans(b),
                b == source.spec_bytes(),
                k <= cs.len(),
                forall|m: int|
                    0 <= m < cs.len() ==> {
                        &&& 0 <= (#[trigger] cs[m]).0
                        &&& cs[m].0 + 2 <= cs[m].1 <= b.len()
                        &&& b[cs[m].0] == 47
                        &&& b[cs[m].0 + 1] == 47
                    },
                forall|m: int|
                    0 <= m < collected@.len() ==> #[trigger] encode_utf8(collected@[m]@)
                        == total[m],
                !done ==> total == Seq::new(collected@.len(), |m: int| total[m]) + block_lines(
                    b,
                    cs,
                    decl_start as int,
                    k as int,
                    expected as int,
                ),
                done ==> total.len() == collected@.len(),
                collected@.len() <= total.len(),
            decreases k + if done { 0int } else { 1int },
        {
            let ghost prefix = Seq::new(collected@.len(), |m: int| total[m]);
            let (span, text) = &self.comments[k - 1];
            assert(span.start == cs[k - 1].0 && span.end == cs[k - 1].1);
            if span.end > decl_start {
                k -= 1;
            } else {
                proof {
                    vstd::utf8::encode_utf8_valid_utf8(source@);
                    crate::lexer::lemma_ascii_boundary_pub(b, span.start as int);
                }
                let comment_line = line_of(source, span.start);
                if comment_line == expected && is_standalone_comment(source, span.start) {
                    let line = strip_slashes(text.as_str());
                    let ghost rest = if expected == 0 {
                        Seq::<Seq<u8>>::empty()
                    } else {
                        block_lines(b, cs, decl_start as int, k - 1, expected - 1)
                    };
                    assert(block_lines(b, cs, decl_start as int, k as int, expected as int) == seq![
                        strip_spec(b.subrange(span.start as int, span.end as int))] + rest);
                    assert(total[collected@.len() as int] == strip_spec(
                        b.subrange(span.start as int, span.end as int),
                    )) by {
                        assert(total =~= prefix + (seq![strip_spec(b.subrange(span.start as int, span.end as int))] + rest));
                    }
                    collected.push(line);
                    proof {
                        let p2 = Seq::new(collected@.len(), |m: int| total[m]);
                        assert(total =~= p2 + rest);
                    }
                    if expected == 0 {
                        done = true;
                    } else {
                        expected -= 1;
                        k -= 1;
                    }
                } else {
                    proof {
                        assert(total =~= prefix);
                    }
                    done = true;
                }
            }
        }
        proof {
            if !done {
                assert(total =~= Seq::new(collected@.len(), |m: int| total[m]));
            }
        }
        assert(total.len() == collected@.len());
        if collected.len() == 0 {
            return None;
        }
        let n = collected.len();
        let mut out = String::new();
        let ghost ls = total.reverse();
        let mut j: usize = 0;
        while j < n
            invariant
                n == collected@.len(),
                n == total.len(),
                n > 0,
                ls == total.reverse(),
                j <= n,
                forall|m: int| 0 <= m < n ==> #[trigger] encode_utf8(collected@[m]@) == total[m],
                encode_utf8(out@) == join_lines(ls.take(j as int)),
            decreases n - j,
        {
            let ghost before = out@;
            assert(ls.take(j + 1).drop_last() =~= ls.take(j as int));
            assert(ls.take(j + 1).last() == ls[j as int]);
            assert(ls[j as int] == total[n - 1 - j]);
            if j > 0 {
                push_str_bytes(&mut out, "\n");
                proof {
                    lemma_encode_concat(before, "\n"@);
                    lemma_encode_newline();
                }
            }
            let ghost mid = out@;
            crate::text::push_str(&mut out, collected[n - 1 - j].as_str());
            proof {
                lemma_encode_concat(mid, collected@[n - 1 - j]@);
                if j == 0 {
                    assert(ls.take(1) =~= seq![ls[0]]);
                    assert(before =~= Seq::<char>::empty());
                    assert(encode_utf8(before) =~= Seq::<u8>::empty());
                    assert(encode_utf8(out@) =~= ls[0]);
                } else {
                    assert(encode_utf8(out@) =~= join_lines(ls.take(j as int)) + seq![10u8] + ls[j as int]);
                }
            }
            j += 1;
        }
        assert(ls.take(n as int) =~= ls);
        Some(out)
    }
}

fn push_str_bytes(s: &mut String, text: &str)
    ensures
        final(s)@ == old(s)@ + text@,
{
    crate::text::push_str(s, text);
}

} // verus!

verus! {

proof fn lemma_later_comments_passed_over(
    b: Seq<u8>,
    cs: Seq<(int, int)>,
    decl: int,
    j: int,
    k: int,
    expected: int,
)
    requires
        0 <= j <= k <= cs.len(),
        forall|m: int| j <= m < k ==> (#[trigger] cs[m]).1 > decl,
    ensures
        block_lines(b, cs, decl, k, expected) == block_lines(b, cs, decl, j, expected),
    decreases k - j,
{
    if k > j {
        assert(cs[k - 1].1 > decl);
        lemma_later_comments_passed_over(b, cs, decl, j, k - 1, expected);
    }
}

proof fn lemma_join_ends_with_last(ls: Seq<Seq<u8>>)
    requires
        ls.len() >= 1,
    ensures
        join_lines(ls).len() >= ls.last().len(),
        join_lines(ls).subrange(join_lines(ls).len() - ls.last().len(), join_lines(ls).len() as int)
            == ls.last(),
{
    let j = join_lines(ls);
    if ls.len() == 1 {
        assert(j.subrange(0, j.len() as int) =~= j);
    } else {
        let pre = join_lines(ls.drop_last()) + seq![10u8];
        assert(j == pre + ls.last());
        assert(j.subrange(j.len() - ls.last().len(), j.len() as int) =~= ls.last());
    }
}

/// A comment on the line just above a declaration is its documentation
/// when nothing but spaces and tabs precede it on its line: the doc comment
/// found above the declaration ends with that comment's text (without its
/// `//` and one following space). `k` is the last comment that ends
/// before the declaration.
pub proof fn indented_comment_above_is_documentation(b: Seq<u8>, decl: int, k: int)
    requires
        0 <= k < comment_spans(b).len(),
        comment_spans(b)[k].1 <= decl,
        forall|m: int| k < m < comment_spans(b).len() ==> (#[trigger] comment_spans(b)[m]).1 > decl,
        line_of_spec(b, comment_spans(b)[k].0) + 1 == line_of_spec(b, decl),
        forall|m: int|
            line_start(b, comment_spans(b)[k].0) <= m < comment_spans(b)[k].0 ==> (#[trigger] b[m]
                == 32 || b[m] == 9),
    ensures
        doc_above(b, decl) matches Some(d) && {
            let c = strip_spec(b.subrange(comment_spans(b)[k].0, comment_spans(b)[k].1));
            &&& d.len() >= c.len()
            &&& d.subrange(d.len() - c.len(), d.len() as int) == c
        },
{
    let cs = comment_spans(b);
    let (s, e) = cs[k];
    let line = line_of_spec(b, decl);
    let expected = line - 1;
    lemma_later_comments_passed_over(b, cs, decl, k + 1, cs.len() as int, expected);
    assert(standalone(b, s));
    let c = strip_spec(b.subrange(s, e));
    let lines = block_lines(b, cs, decl, cs.len() as int, expected);
    assert(lines.len() >= 1 && lines[0] == c);
    let rev = lines.reverse();
    assert(rev.last() == lines[0]);
    lemma_join_ends_with_last(rev);
}

} // verus!
