//! What the language server computes: diagnostics of a document, the word
//! under the cursor, completions and hover texts.
use vstd::prelude::*;
use crate::ast::Expr;
use crate::checker::LinearChecker;
use crate::lexer::Lexer;
use crate::parser::Parser;
use crate::parser::stmt::{parse_fails_with, parses_to, token_kinds};
use crate::text::{chars_of, char_is_alphanumeric, is_alnum, push_char, push_str, push_string, string_of, string_from_chars};
use crate::yard::linker::{trim, trimmed};

verus! {

/// The line without one final carriage return.
pub open spec fn strip_cr(s: Seq<char>) -> Seq<char> {
    if s.len() > 0 && s.last() == '\r' {
        s.drop_last()
    } else {
        s
    }
}

/// The position of the first newline in `s` from `i` on, or the length.
pub open spec fn newline_from(s: Seq<char>, i: int) -> int
    decreases s.len() - i,
{
    if i < 0 || i >= s.len() {
        s.len() as int
    } else if s[i] == '\n' {
        i
    } else {
        newline_from(s, i + 1)
    }
}

/// The lines of a text as `str::lines` gives them: split at each `\n`, a
/// `\r` before it dropped, and no empty line after a final `\n`.
pub open spec fn lines_spec(s: Seq<char>) -> Seq<Seq<char>>
    decreases s.len(),
{
    let k = newline_from(s, 0);
    if s.len() == 0 {
        Seq::empty()
    } else if 0 <= k && k < s.len() {
        seq![strip_cr(s.take(k))] + lines_spec(s.skip(k + 1))
    } else {
        seq![s]
    }
}

proof fn lemma_newline_from(s: Seq<char>, i: int)
    requires
        0 <= i <= s.len(),
    ensures
        i <= newline_from(s, i) <= s.len(),
        newline_from(s, i) < s.len() ==> s[newline_from(s, i)] == '\n',
        forall|j: int| i <= j < newline_from(s, i) ==> s[j] != '\n',
    decreases s.len() - i,
{
    if i < s.len() && s[i] != '\n' {
        lemma_newline_from(s, i + 1);
    }
}

proof fn lemma_newline_shift(s: Seq<char>, a: int, i: int)
    requires
        0 <= a <= i <= s.len(),
        forall|j: int| a <= j < i ==> s[j] != '\n',
    ensures
        newline_from(s.skip(a), 0) == newline_from(s.skip(a), i - a),
        newline_from(s.skip(a), i - a) == newline_from(s, i) - a,
    decreases s.len() - i,
{
    lemma_newline_prefix(s.skip(a), i - a);
    if i < s.len() && s[i] != '\n' {
        lemma_newline_shift(s, a, i + 1);
    }
}

proof fn lemma_newline_prefix(t: Seq<char>, k: int)
    requires
        0 <= k <= t.len(),
        forall|j: int| 0 <= j < k ==> t[j] != '\n',
    ensures
        newline_from(t, 0) == newline_from(t, k),
    decreases k,
{
    if k > 0 {
        lemma_newline_prefix_from(t, 0, k);
    }
}

proof fn lemma_newline_prefix_from(t: Seq<char>, i: int, k: int)
    requires
        0 <= i <= k <= t.len(),
        forall|j: int| i <= j < k ==> t[j] != '\n',
    ensures
        newline_from(t, i) == newline_from(t, k),
    decreases k - i,
{
    if i < k {
        lemma_newline_prefix_from(t, i + 1, k);
    }
}

/// The lines of a text.
pub fn lines_of(text: &str) -> (r: Vec<String>)
    ensures
        r@.len() == lines_spec(text@).len(),
        forall|i: int| 0 <= i < r@.len() ==> #[trigger] r@[i]@ == lines_spec(text@)[i],
{
    let v = chars_of(text);
    let mut out: Vec<String> = Vec::new();
    let mut start: usize = 0;
    proof {
        assert(v@.skip(0) =~= v@);
    }
    while start < v.len()
        invariant
            v@ == text@,
            start <= v@.len(),
            lines_spec(text@) == Seq::new(out@.len(), |i: int| out@[i]@) + lines_spec(v@.skip(start as int)),
        decreases v.len() - start,
    {
        let ghost rest = v@.skip(start as int);
        let mut k: usize = start;
        while k < v.len() && v[k] != '\n'
            invariant
                start <= k <= v@.len(),
                forall|j: int| start <= j < k ==> v@[j] != '\n',
            decreases v.len() - k,
        {
            k += 1;
        }
        proof {
            lemma_newline_shift(v@, start as int, k as int);
            lemma_newline_from(v@, k as int);
            assert(newline_from(v@, k as int) == k);
        }
        let ghost before = Seq::new(out@.len(), |i: int| out@[i]@);
        if k == v.len() {
            let line = string_from_chars(&v, start, k);
            out.push(line);
            proof {
                assert(rest.len() > 0);
                assert(newline_from(rest, 0) >= rest.len());
                assert(line@ =~= rest);
                assert(lines_spec(rest) == seq![rest]);
                assert(v@.skip(k as int) =~= Seq::<char>::empty());
                assert(lines_spec(v@.skip(k as int)) =~= Seq::<Seq<char>>::empty());
                assert(Seq::new(out@.len(), |i: int| out@[i]@) =~= before.push(rest));
                assert(before + seq![rest] =~= before.push(rest) + Seq::<Seq<char>>::empty());
            }
            start = k;
        } else {
            let end = if k > start && v[k - 1] == '\r' {
                k - 1
            } else {
                k
            };
            let line = string_from_chars(&v, start, end);
            out.push(line);
            proof {
                let kk = (k - start) as int;
                assert(newline_from(rest, 0) == kk);
                assert(line@ =~= strip_cr(rest.take(kk)));
                assert(rest.skip(kk + 1) =~= v@.skip(k + 1));
                assert(Seq::new(out@.len(), |i: int| out@[i]@) =~= before.push(line@));
                assert(lines_spec(rest) == seq![strip_cr(rest.take(kk))] + lines_spec(rest.skip(kk + 1)));
                assert(before + lines_spec(rest) =~= before.push(line@) + lines_spec(v@.skip(k + 1)));
            }
            start = k + 1;
        }
    }
    proof {
        assert(v@.skip(start as int) =~= Seq::<char>::empty());
        assert(lines_spec(v@.skip(start as int)) =~= Seq::<Seq<char>>::empty());
        assert(Seq::new(out@.len(), |i: int| out@[i]@) + Seq::<Seq<char>>::empty() =~= Seq::new(
            out@.len(),
            |i: int| out@[i]@,
        ));
    }
    out
}

/// Whether `s` begins with `p`.
pub open spec fn starts(s: Seq<char>, p: Seq<char>) -> bool {
    p.len() <= s.len() && s.take(p.len() as int) == p
}

/// Whether `s` begins with `p`.
pub fn starts_with(s: &str, p: &str) -> (r: bool)
    ensures
        r == starts(s@, p@),
{
    let a = chars_of(s);
    let b = chars_of(p);
    if b.len() > a.len() {
        return false;
    }
    crate::text::chars_equal(&a, 0, b.len(), b.as_slice())
}

/// The state of the block scan: inside a block or not, where it starts, its
/// text so far, and the blocks found.
pub struct BlockScan {
    pub in_block: bool,
    pub start: nat,
    pub content: Seq<char>,
    pub blocks: Seq<(nat, nat, Seq<char>)>,
}

/// One line of the scan for fenced Track blocks in Markdown: a line that
/// (trimmed) opens with ```` ```track ```` or ```` ```trk ```` starts a
/// block on the next line; a line ```` ``` ```` ends an open block; other
/// lines inside a block are its text, joined with newlines.
pub open spec fn scan_line(st: BlockScan, idx: nat, line: Seq<char>) -> BlockScan {
    let t = trimmed(line);
    if starts(t, "```track"@) || starts(t, "```trk"@) {
        BlockScan { in_block: true, start: idx + 1, content: Seq::empty(), blocks: st.blocks }
    } else if t == "```"@ && st.in_block {
        BlockScan {
            in_block: false,
            start: st.start,
            content: st.content,
            blocks: st.blocks.push((st.start, idx, st.content)),
        }
    } else if st.in_block {
        BlockScan {
            in_block: true,
            start: st.start,
            content: if st.content.len() == 0 {
                line
            } else {
                st.content + seq!['\n'] + line
            },
            blocks: st.blocks,
        }
    } else {
        st
    }
}

/// The scan after the first `n` lines.
pub open spec fn scan_lines(lines: Seq<Seq<char>>, n: nat) -> BlockScan
    decreases n,
{
    if n == 0 || n > lines.len() {
        BlockScan { in_block: false, start: 0, content: Seq::empty(), blocks: Seq::empty() }
    } else {
        scan_line(scan_lines(lines, (n - 1) as nat), (n - 1) as nat, lines[n - 1])
    }
}

/// The fenced Track blocks of a Markdown text: first line, closing line,
/// text.
pub open spec fn track_blocks(md: Seq<char>) -> Seq<(nat, nat, Seq<char>)> {
    scan_lines(lines_spec(md), lines_spec(md).len()).blocks
}

/// The fenced Track blocks of a Markdown text, each with the line it
/// starts on, the line of its closing fence and its text.
pub fn extract_track_blocks(markdown: &str) -> (r: Vec<(usize, usize, String)>)
    ensures
        r@.len() == track_blocks(markdown@).len(),
        forall|i: int|
            0 <= i < r@.len() ==> {
                let b = track_blocks(markdown@)[i];
                &&& (#[trigger] r@[i]).0 == b.0
                &&& r@[i].1 == b.1
                &&& r@[i].2@ == b.2
            },
{
    let lines = lines_of(markdown);
    let ghost ls = lines_spec(markdown@);
    let mut blocks: Vec<(usize, usize, String)> = Vec::new();
    let mut in_block = false;
    let mut start: usize = 0;
    let mut content = String::new();
    let mut i: usize = 0;
    while i < lines.len()
        invariant
            ls == lines_spec(markdown@),
            lines@.len() == ls.len(),
            forall|j: int| 0 <= j < lines@.len() ==> #[trigger] lines@[j]@ == ls[j],
            i <= lines@.len(),
            start <= i,
            ({
                let st = scan_lines(ls, i as nat);
                &&& st.in_block == in_block
                &&& st.start == start
                &&& st.content == content@
                &&& st.blocks.len() == blocks@.len()
                &&& forall|k: int|
                    0 <= k < blocks@.len() ==> {
                        &&& (#[trigger] blocks@[k]).0 == st.blocks[k].0
                        &&& blocks@[k].1 == st.blocks[k].1
                        &&& blocks@[k].2@ == st.blocks[k].2
                    }
            }),
        decreases lines.len() - i,
    {
        let line = &lines[i];
        let t = trim(line.as_str());
        let ghost st = scan_lines(ls, i as nat);
        proof {
            assert(scan_lines(ls, (i + 1) as nat) == scan_line(st, i as nat, ls[i as int]));
        }
        if starts_with(t.as_str(), "```track") || starts_with(t.as_str(), "```trk") {
            in_block = true;
            start = i + 1;
            content = String::new();
        } else if t.eq(&string_of("```")) && in_block {
            in_block = false;
            let ghost before = blocks@;
            blocks.push((start, i, content.clone()));
            proof {
                assert forall|k: int| 0 <= k < blocks@.len() implies {
                    let s2 = scan_lines(ls, (i + 1) as nat);
                    &&& (#[trigger] blocks@[k]).0 == s2.blocks[k].0
                    &&& blocks@[k].1 == s2.blocks[k].1
                    &&& blocks@[k].2@ == s2.blocks[k].2
                } by {
                    if k < before.len() {
                        assert(blocks@[k] == before[k]);
                    }
                }
            }
        } else if in_block {
            let was_empty = content.eq(&String::new());
            let ghost c0 = content@;
            if !was_empty {
                push_char(&mut content, '\n');
            }
            push_string(&mut content, line);
            proof {
                if was_empty {
                    assert(c0 =~= Seq::<char>::empty());
                    assert(content@ =~= ls[i as int]);
                } else {
                    if c0.len() == 0 {
                        assert(c0 =~= Seq::<char>::empty());
                    }
                    assert(content@ =~= c0 + seq!['\n'] + ls[i as int]);
                }
            }
        }
        i += 1;
    }
    blocks
}

/// What analysing `source` gives, as the syntax tree `tree` and the
/// messages `msgs`: a lexer error is the one message; otherwise a tree is
/// the parse of every token, and without a tree the one message is the
/// error of the statement where parsing failed.
pub open spec fn source_answer(source: Seq<char>, tree: Option<Vec<Expr>>, msgs: Seq<String>) -> bool {
    match crate::lexer::spec_tokenize(source) {
        Err((a, b)) => tree is None && msgs.len() == 1 && msgs[0]@ == crate::lexer::lex_error_message(source, a, b),
        Ok(ts) => match tree {
            Some(v) => parses_to(token_kinds(ts), v@),
            None => msgs.len() == 1 && parse_fails_with(token_kinds(ts), msgs[0]),
        },
    }
}

/// What checking a text gives: its syntax tree when it parses, and the
/// first error of the lexer, the parser or the checker.
pub fn analyze_source(source: &str) -> (r: (Option<Vec<Expr>>, Vec<String>))
    ensures
        r.1@.len() <= 1,
        r.0 is None ==> r.1@.len() == 1,
        source_answer(source@, r.0, r.1@),
{
    let tokens = match Lexer::tokenize(source) {
        Ok(t) => t,
        Err(e) => {
            return (None, vec![e]);
        },
    };
    let ghost tv = tokens@;
    let mut parser = Parser::new(tokens, string_of(source));
    let ghost start = parser;
    proof {
        crate::parser::stmt::lemma_kinds(start.toks(), tv, source@, crate::lexer::spec_tokenize(source@)->Ok_0);
    }
    let program = match parser.parse_program() {
        Ok(p) => p,
        Err(e) => {
            proof {
                assert(parse_fails_with(start.toks(), e));
            }
            let msgs = vec![e];
            return (None, msgs);
        },
    };
    proof {
        assert(parses_to(start.toks(), program@));
    }
    let mut checker = LinearChecker::new();
    match checker.check_program(program.as_slice()) {
        Ok(()) => (Some(program), Vec::new()),
        Err(e) => (Some(program), vec![e]),
    }
}

/// The lexer error of a text, if it has one.
pub open spec fn block_lex_error(text: Seq<char>) -> Option<Seq<char>> {
    match crate::lexer::spec_tokenize(text) {
        Err((a, b)) => Some(crate::lexer::lex_error_message(text, a, b)),
        Ok(_) => None,
    }
}

/// `m` is the message that analysing `text` gives.
pub open spec fn block_message(text: Seq<char>, m: String) -> bool {
    exists|t: Option<Vec<Expr>>| #[trigger] source_answer(text, t, seq![m])
}

/// `x` is the message of one of the first `n` blocks of `tb`, on the line
/// that block starts.
pub open spec fn from_block(tb: Seq<(nat, nat, Seq<char>)>, n: int, x: (usize, String)) -> bool {
    exists|b: int| 0 <= b < n && x.0 == tb[b].0 && #[trigger] block_message(tb[b].2, x.1)
}

/// The diagnostics of a Markdown document with the Track blocks `tb`: each
/// is the message of some block, on the line the block starts; and each
/// block that fails lexing is reported with its lexer error.
pub open spec fn markdown_answer(tb: Seq<(nat, nat, Seq<char>)>, d: Seq<(usize, String)>) -> bool {
    &&& forall|j: int| 0 <= j < d.len() ==> #[trigger] from_block(tb, tb.len() as int, d[j])
    &&& forall|b: int|
        0 <= b < tb.len() && (#[trigger] block_lex_error(tb[b].2)) is Some ==> exists|j: int|
            0 <= j < d.len() && d[j].0 == tb[b].0 && d[j].1@ == block_lex_error(tb[b].2)->Some_0
}

/// Whether `s` ends with `x`.
pub open spec fn ends(s: Seq<char>, x: Seq<char>) -> bool {
    x.len() <= s.len() && s.skip(s.len() - x.len()) == x
}

fn ends_with(s: &str, x: &str) -> (r: bool)
    ensures
        r == ends(s@, x@),
{
    let a = chars_of(s);
    let b = chars_of(x);
    if b.len() > a.len() {
        return false;
    }
    let r = crate::text::chars_equal(&a, a.len() - b.len(), a.len(), b.as_slice());
    proof {
        assert(a@.subrange(a@.len() - b@.len(), a@.len() as int) =~= a@.skip(a@.len() - b@.len()));
    }
    r
}

/// The diagnostics of a document, each as the line it is reported on and
/// its message: a Markdown document gives those of its Track blocks, on the
/// lines the blocks start; a `.trk` document gives its own, on line 0; any
/// other document none. The syntax tree is given for a `.trk` document
/// that parses.
pub fn analyze_document(path: &str, text: &str) -> (r: (Option<Vec<Expr>>, Vec<(usize, String)>))
    ensures
        !ends(path@, ".md"@) && !ends(path@, ".markdown"@) && !ends(path@, ".trk"@) ==> r.0 is None
            && r.1@.len() == 0,
        (ends(path@, ".md"@) || ends(path@, ".markdown"@)) ==> r.0 is None && markdown_answer(
            track_blocks(text@),
            r.1@,
        ),
        !ends(path@, ".md"@) && !ends(path@, ".markdown"@) && ends(path@, ".trk"@) ==> {
            &&& forall|i: int| 0 <= i < r.1@.len() ==> (#[trigger] r.1@[i]).0 == 0
            &&& r.1@.len() <= 1
            &&& source_answer(text@, r.0, Seq::new(r.1@.len(), |i: int| r.1@[i].1))
        },
{
    if ends_with(path, ".md") || ends_with(path, ".markdown") {
        let blocks = extract_track_blocks(text);
        let ghost tb = track_blocks(text@);
        let mut all: Vec<(usize, String)> = Vec::new();
        let mut i: usize = 0;
        while i < blocks.len()
            invariant
                i <= blocks.len(),
                tb == track_blocks(text@),
                blocks@.len() == tb.len(),
                forall|b: int|
                    0 <= b < blocks@.len() ==> {
                        &&& (#[trigger] blocks@[b]).0 == tb[b].0
                        &&& blocks@[b].2@ == tb[b].2
                    },
                forall|j: int| 0 <= j < all@.len() ==> #[trigger] from_block(tb, i as int, all@[j]),
                forall|b: int|
                    0 <= b < i && (#[trigger] block_lex_error(tb[b].2)) is Some ==> exists|j: int|
                        0 <= j < all@.len() && all@[j].0 == tb[b].0 && all@[j].1@ == block_lex_error(tb[b].2)->Some_0,
            decreases blocks.len() - i,
        {
            let (_, msgs) = analyze_source(blocks[i].2.as_str());
            let ghost before = all@;
            let mut k: usize = 0;
            while k < msgs.len()
                invariant
                    k <= msgs.len(),
                    i < blocks.len(),
                    msgs@.len() <= 1,
                    all@.len() == before.len() + k,
                    forall|j: int| 0 <= j < before.len() ==> all@[j] == before[j],
                    forall|j: int|
                        before.len() <= j < all@.len() ==> all@[j].0 == blocks@[i as int].0 && all@[j].1
                            == msgs@[j - before.len()],
                decreases msgs.len() - k,
            {
                all.push((blocks[i].0, msgs[k].clone()));
                k += 1;
            }
            proof {
                assert forall|j: int| 0 <= j < all@.len() implies #[trigger] from_block(tb, i + 1, all@[j]) by {
                    if j < before.len() {
                        assert(all@[j] == before[j]);
                        assert(from_block(tb, i as int, before[j]));
                    } else {
                        assert(msgs@ =~= seq![all@[j].1]);
                        assert(block_message(tb[i as int].2, all@[j].1));
                    }
                }
                assert forall|b: int|
                    0 <= b < i + 1 && (#[trigger] block_lex_error(tb[b].2)) is Some implies exists|j: int|
                        0 <= j < all@.len() && all@[j].0 == tb[b].0 && all@[j].1@ == block_lex_error(tb[b].2)->Some_0 by {
                    if b < i {
                        let j = choose|j: int|
                            0 <= j < before.len() && before[j].0 == tb[b].0 && before[j].1@ == block_lex_error(
                                tb[b].2,
                            )->Some_0;
                        assert(all@[j] == before[j]);
                    } else {
                        assert(all@[before.len() as int].0 == tb[b].0);
                    }
                }
            }
            i += 1;
        }
        (None, all)
    } else if ends_with(path, ".trk") {
        let (ast, msgs) = analyze_source(text);
        let mut all: Vec<(usize, String)> = Vec::new();
        let mut k: usize = 0;
        while k < msgs.len()
            invariant
                k <= msgs.len(),
                all@.len() == k,
                forall|i: int| 0 <= i < all@.len() ==> (#[trigger] all@[i]).0 == 0 && all@[i].1 == msgs@[i],
            decreases msgs.len() - k,
        {
            all.push((0, msgs[k].clone()));
            k += 1;
        }
        proof {
            assert(Seq::new(all@.len(), |i: int| all@[i].1) =~= msgs@);
        }
        (ast, all)
    } else {
        (None, Vec::new())
    }
}

/// A character that ends a word: neither alphanumeric nor `_`.
pub open spec fn is_break(c: char) -> bool {
    !is_alnum(c) && c != '_'
}

/// Where the word that ends at `k` starts: after the last word break before
/// `k`, or at 0.
pub open spec fn word_start(s: Seq<char>, k: int) -> int
    decreases k,
{
    if k <= 0 || k > s.len() {
        0
    } else if is_break(s[k - 1]) {
        k
    } else {
        word_start(s, k - 1)
    }
}

/// Where the word that goes on from `k` ends: at the first word break from
/// `k` on, or at the end.
pub open spec fn word_end(s: Seq<char>, k: int) -> int
    decreases s.len() - k,
{
    if k < 0 || k >= s.len() {
        s.len() as int
    } else if is_break(s[k]) {
        k
    } else {
        word_end(s, k + 1)
    }
}

fn is_break_exec(c: char) -> (r: bool)
    ensures
        r == is_break(c),
{
    !char_is_alphanumeric(c) && c != '_'
}

fn word_start_exec(v: &Vec<char>, k: usize) -> (r: usize)
    requires
        k <= v@.len(),
    ensures
        r == word_start(v@, k as int),
        r <= k,
{
    let mut j: usize = k;
    while j > 0 && !is_break_exec(v[j - 1])
        invariant
            j <= k <= v@.len(),
            word_start(v@, k as int) == word_start(v@, j as int),
        decreases j,
    {
        j -= 1;
    }
    j
}

fn word_end_exec(v: &Vec<char>, k: usize) -> (r: usize)
    requires
        k <= v@.len(),
    ensures
        r == word_end(v@, k as int),
        k <= r <= v@.len(),
{
    let mut j: usize = k;
    while j < v.len() && !is_break_exec(v[j])
        invariant
            k <= j <= v@.len(),
            word_end(v@, k as int) == word_end(v@, j as int),
        decreases v.len() - j,
    {
        j += 1;
    }
    j
}

/// The character position at the byte offset `b` of `s`: the first from
/// `k` on whose offset is at least `b`, or the end.
pub open spec fn char_index(s: Seq<char>, b: int, k: int) -> int
    decreases s.len() - k,
{
    if k < 0 || k >= s.len() || crate::lexer::byte_offset(s, k) >= b {
        k
    } else {
        char_index(s, b, k + 1)
    }
}

/// The number of bytes of the UTF-8 text of `s`.
pub open spec fn byte_len(s: Seq<char>) -> int {
    crate::lexer::byte_offset(s, s.len() as int)
}

/// The cursor, a byte offset, falls on a character boundary of the line (or
/// at or past its end, where `held` is set) and the break that starts the
/// word before it, if any, is a one-byte character; slicing the line there
/// is what the editor does.
pub open spec fn cursor_ok(line: Seq<char>, cursor: int, held: bool) -> bool {
    let c = char_index(line, cursor, 0);
    let before = line.take(c);
    let ws = word_start(before, c);
    &&& (held && cursor >= byte_len(line)) || crate::lexer::byte_offset(line, c) == cursor
    &&& ws > 0 ==> crate::lexer::utf8_width(line[ws - 1]) == 1
}

/// The word being typed: the part of the line before the cursor (a byte
/// offset, held to the line's end) after its last word break.
pub open spec fn completion_word(line: Seq<char>, cursor: int) -> Seq<char> {
    let c = char_index(line, cursor, 0);
    let before = line.take(c);
    before.skip(word_start(before, c))
}

proof fn lemma_char_index(s: Seq<char>, b: int, k: int)
    requires
        0 <= k <= s.len(),
    ensures
        k <= char_index(s, b, k) <= s.len(),
        forall|m: int| k <= m < char_index(s, b, k) ==> crate::lexer::byte_offset(s, m) < b,
        char_index(s, b, k) < s.len() ==> crate::lexer::byte_offset(s, char_index(s, b, k)) >= b,
    decreases s.len() - k,
{
    if k < s.len() && crate::lexer::byte_offset(s, k) < b {
        lemma_char_index(s, b, k + 1);
    }
}

/// The character position at byte offset `b` of `line`, with `offs` its
/// byte offsets.
fn char_index_exec(line: &Vec<char>, offs: &Vec<usize>, b: usize) -> (r: usize)
    requires
        offs@.len() == line@.len() + 1,
        forall|k: int| 0 <= k <= line@.len() ==> #[trigger] offs@[k] == crate::lexer::byte_offset(line@, k),
    ensures
        r == char_index(line@, b as int, 0),
        r <= line@.len(),
{
    proof {
        lemma_char_index(line@, b as int, 0);
    }
    let mut k: usize = 0;
    while k < line.len() && offs[k] < b
        invariant
            k <= line@.len(),
            char_index(line@, b as int, 0) == char_index(line@, b as int, k as int),
            offs@.len() == line@.len() + 1,
            forall|m: int| 0 <= m <= line@.len() ==> #[trigger] offs@[m] == crate::lexer::byte_offset(line@, m),
        decreases line.len() - k,
    {
        k += 1;
    }
    k
}

/// Whether `cursor` is a position the editor can slice the line at (see
/// `cursor_ok`); where it is not, reading the word there fails.
pub fn cursor_is_valid(line: &str, cursor: usize, held: bool) -> (r: bool)
    ensures
        r == cursor_ok(line@, cursor as int, held),
{
    let v = chars_of(line);
    let offs = crate::lexer::byte_offsets(line, &v);
    let c = char_index_exec(&v, &offs, cursor);
    let before = string_from_chars(&v, 0, c);
    let b = chars_of(before.as_str());
    let ws = word_start_exec(&b, c);
    proof {
        assert(b@ =~= line@.take(c as int));
    }
    let boundary = (held && cursor >= offs[v.len()]) || offs[c] == cursor;
    let narrow = if ws > 0 {
        let u = v[ws - 1] as u32;
        u <= 0x7F
    } else {
        true
    };
    boundary && narrow
}

/// The word being typed at the cursor, a byte offset into the line.
pub fn word_before_cursor(line: &str, cursor: usize) -> (r: String)
    requires
        cursor_ok(line@, cursor as int, true),
    ensures
        r@ == completion_word(line@, cursor as int),
{
    let v = chars_of(line);
    let offs = crate::lexer::byte_offsets(line, &v);
    let c = char_index_exec(&v, &offs, cursor);
    let before = string_from_chars(&v, 0, c);
    let b = chars_of(before.as_str());
    let s = word_start_exec(&b, c);
    proof {
        assert(b@ =~= line@.take(c as int));
        assert(b@.subrange(s as int, c as int) =~= b@.skip(s as int));
    }
    string_from_chars(&b, s, c)
}

/// The word under the cursor, a byte offset into the line: from the last
/// word break before it to the first one after it.
pub open spec fn hover_word(line: Seq<char>, cursor: int) -> Seq<char> {
    let c = char_index(line, cursor, 0);
    let s = word_start(line.take(c), c);
    let e = word_end(line, c);
    line.subrange(s, e)
}

/// The word under the cursor.
pub fn word_at_cursor(line: &str, cursor: usize) -> (r: String)
    requires
        cursor_ok(line@, cursor as int, false),
    ensures
        r@ == hover_word(line@, cursor as int),
{
    let v = chars_of(line);
    let offs = crate::lexer::byte_offsets(line, &v);
    let c = char_index_exec(&v, &offs, cursor);
    let before = string_from_chars(&v, 0, c);
    let b = chars_of(before.as_str());
    let s = word_start_exec(&b, c);
    let e = word_end_exec(&v, c);
    proof {
        assert(b@ =~= line@.take(c as int));
    }
    string_from_chars(&v, s, e)
}

/// What kind of thing a completion proposes.
#[derive(Debug, Clone, Copy, PartialEq, Eq, Structural)]
pub enum CompletionKind {
    Keyword,
    Type,
    Function,
    EnumMember,
}

/// A proposed completion: its text, its kind and a short description.
pub struct Completion {
    pub label: String,
    pub kind: CompletionKind,
    pub detail: String,
}

/// The keywords proposed as completions.
pub open spec fn keyword_list() -> Seq<Seq<char>> {
    seq![
        "import"@, "use"@, "let"@, "mut"@, "fn"@, "return"@, "if"@, "else"@, "while"@, "for"@,
        "in"@, "struct"@, "enum"@, "union"@, "match"@, "with"@, "const"@, "type"@, "true"@,
        "false"@, "as"@,
    ]
}

/// The type names proposed as completions.
pub open spec fn type_list() -> Seq<Seq<char>> {
    seq!["i8"@, "u8"@, "i32"@, "u32"@, "i64"@, "u64"@, "bool"@, "void"@, "ptr"@]
}

/// The built-in functions proposed as completions.
pub open spec fn builtin_list() -> Seq<Seq<char>> {
    seq![
        "print"@, "println"@, "eprint"@, "read"@, "file_open"@, "file_close"@, "file_exists"@,
        "dir_exists"@, "file_copy"@, "clock_ms"@, "exit"@, "alloc"@, "dealloc"@, "env_get"@,
        "os_args_count"@, "os_arg"@, "process_spawn"@, "sys_exec"@, "sys_set_memory_limit"@,
        "sys_get_memory_used"@, "str_starts_with"@, "str_ends_with"@, "str_contains"@, "abort"@,
    ]
}

/// The macros proposed as completions, without their `@`.
pub open spec fn macro_list() -> Seq<Seq<char>> {
    seq!["macro"@, "now"@, "compile_error"@]
}

/// The value of a completion.
pub open spec fn completion_view(c: Completion) -> (Seq<char>, CompletionKind, Seq<char>) {
    (c.label@, c.kind, c.detail@)
}

/// The entries of `names` that begin with `word` (with `prefix` in front
/// when `whole` is set), each as a completion of the given kind and
/// description, labelled with `prefix` before its name.
pub open spec fn matching(
    names: Seq<Seq<char>>,
    word: Seq<char>,
    prefix: Seq<char>,
    whole: bool,
    kind: CompletionKind,
    detail: Seq<char>,
) -> Seq<(Seq<char>, CompletionKind, Seq<char>)>
    decreases names.len(),
{
    if names.len() == 0 {
        Seq::empty()
    } else {
        let rest = matching(names.drop_last(), word, prefix, whole, kind, detail);
        if starts(if whole { prefix + names.last() } else { names.last() }, word) {
            rest.push((prefix + names.last(), kind, detail))
        } else {
            rest
        }
    }
}

fn push_matching(
    out: &mut Vec<Completion>,
    names: &Vec<String>,
    word: &str,
    prefix: &str,
    whole: bool,
    kind: CompletionKind,
    detail: &str,
)
    ensures
        Seq::new(final(out)@.len(), |i: int| completion_view(final(out)@[i])) == Seq::new(
            old(out)@.len(),
            |i: int| completion_view(old(out)@[i]),
        ) + matching(Seq::new(names@.len(), |i: int| names@[i]@), word@, prefix@, whole, kind, detail@),
{
    let ghost ns = Seq::new(names@.len(), |i: int| names@[i]@);
    let ghost start = Seq::new(out@.len(), |i: int| completion_view(out@[i]));
    let mut i: usize = 0;
    proof {
        assert(ns.take(0) =~= Seq::<Seq<char>>::empty());
        assert(start + matching(ns.take(0), word@, prefix@, whole, kind, detail@) =~= start);
    }
    while i < names.len()
        invariant
            ns == Seq::new(names@.len(), |i: int| names@[i]@),
            start == Seq::new(old(out)@.len(), |i: int| completion_view(old(out)@[i])),
            i <= names.len(),
            Seq::new(out@.len(), |i: int| completion_view(out@[i])) == start + matching(
                ns.take(i as int),
                word@,
                prefix@,
                whole,
                kind,
                detail@,
            ),
        decreases names.len() - i,
    {
        proof {
            assert(ns.take(i + 1).drop_last() =~= ns.take(i as int));
            assert(ns.take(i + 1).last() == names@[i as int]@);
        }
        let ghost before = Seq::new(out@.len(), |i: int| completion_view(out@[i]));
        let mut label = string_of(prefix);
        push_string(&mut label, &names[i]);
        let hit = if whole {
            starts_with(label.as_str(), word)
        } else {
            starts_with(names[i].as_str(), word)
        };
        if hit {
            out.push(Completion { label, kind, detail: string_of(detail) });
            proof {
                assert(Seq::new(out@.len(), |i: int| completion_view(out@[i])) =~= before.push(
                    (prefix@ + names@[i as int]@, kind, detail@),
                ));
            }
        }
        i += 1;
    }
    proof {
        assert(ns.take(names@.len() as int) =~= ns);
    }
}

fn names_vec(items: &[&str]) -> (r: Vec<String>)
    ensures
        r@.len() == items@.len(),
        forall|i: int| 0 <= i < r@.len() ==> #[trigger] r@[i]@ == items@[i]@,
{
    let mut out: Vec<String> = Vec::new();
    let mut i: usize = 0;
    while i < items.len()
        invariant
            i <= items@.len(),
            out@.len() == i,
            forall|j: int| 0 <= j < i ==> #[trigger] out@[j]@ == items@[j]@,
        decreases items.len() - i,
    {
        out.push(string_of(items[i]));
        i += 1;
    }
    out
}

/// The completions that a program's own definitions give: enum and union
/// variants as `Name::Variant`, and function names.
pub open spec fn program_completions(p: Seq<Expr>, word: Seq<char>) -> Seq<(Seq<char>, CompletionKind, Seq<char>)>
    decreases p.len(),
{
    if p.len() == 0 {
        Seq::empty()
    } else {
        program_completions(p.drop_last(), word) + match p.last() {
            Expr::EnumDef { name, variants, .. } => matching(
                Seq::new(variants@.len(), |i: int| variants@[i].0@),
                word,
                name@ + "::"@,
                true,
                CompletionKind::EnumMember,
                "Enum variant of "@ + name@,
            ),
            Expr::UnionDef { name, variants } => matching(
                Seq::new(variants@.len(), |i: int| variants@[i].0@),
                word,
                name@ + "::"@,
                true,
                CompletionKind::EnumMember,
                "Union variant of "@ + name@,
            ),
            Expr::FnDef { name, .. } => if starts(name@, word) {
                seq![(name@, CompletionKind::Function, "User-defined function"@)]
            } else {
                Seq::empty()
            },
            _ => Seq::empty(),
        }
    }
}

/// The completions of `word`: keywords, types, built-in functions, macros,
/// then the program's own definitions.
pub open spec fn completions_spec(word: Seq<char>, p: Seq<Expr>) -> Seq<(Seq<char>, CompletionKind, Seq<char>)> {
    matching(keyword_list(), word, Seq::empty(), false, CompletionKind::Keyword, "Keyword"@) + matching(
        type_list(),
        word,
        Seq::empty(),
        false,
        CompletionKind::Type,
        "Type"@,
    ) + matching(builtin_list(), word, Seq::empty(), false, CompletionKind::Function, "Built-in function"@)
        + matching(macro_list(), word, "@"@, false, CompletionKind::Function, "Macro"@) + program_completions(
        p,
        word,
    )
}

/// The completions proposed for `word` in a document whose syntax tree is
/// `program`; none for an empty word.
pub fn completions(word: &str, program: &Vec<Expr>) -> (r: Vec<Completion>)
    ensures
        word@.len() == 0 ==> r@.len() == 0,
        word@.len() > 0 ==> Seq::new(r@.len(), |i: int| completion_view(r@[i])) == completions_spec(
            word@,
            program@,
        ),
{
    let w = chars_of(word);
    if w.len() == 0 {
        return Vec::new();
    }
    let mut out: Vec<Completion> = Vec::new();
    let kws = names_vec(
        &[
            "import",
            "use",
            "let",
            "mut",
            "fn",
            "return",
            "if",
            "else",
            "while",
            "for",
            "in",
            "struct",
            "enum",
            "union",
            "match",
            "with",
            "const",
            "type",
            "true",
            "false",
            "as",
        ],
    );
    let tys = names_vec(&["i8", "u8", "i32", "u32", "i64", "u64", "bool", "void", "ptr"]);
    let bis = names_vec(
        &[
            "print",
            "println",
            "eprint",
            "read",
            "file_open",
            "file_close",
            "file_exists",
            "dir_exists",
            "file_copy",
            "clock_ms",
            "exit",
            "alloc",
            "dealloc",
            "env_get",
            "os_args_count",
            "os_arg",
            "process_spawn",
            "sys_exec",
            "sys_set_memory_limit",
            "sys_get_memory_used",
            "str_starts_with",
            "str_ends_with",
            "str_contains",
            "abort",
        ],
    );
    let mcs = names_vec(&["macro", "now", "compile_error"]);
    proof {
        assert(Seq::new(kws@.len(), |i: int| kws@[i]@) =~= keyword_list());
        assert(Seq::new(tys@.len(), |i: int| tys@[i]@) =~= type_list());
        assert(Seq::new(bis@.len(), |i: int| bis@[i]@) =~= builtin_list());
        assert(Seq::new(mcs@.len(), |i: int| mcs@[i]@) =~= macro_list());
        assert(Seq::new(out@.len(), |i: int| completion_view(out@[i])) =~= Seq::empty());
    }
    push_matching(&mut out, &kws, word, "", false, CompletionKind::Keyword, "Keyword");
    push_matching(&mut out, &tys, word, "", false, CompletionKind::Type, "Type");
    push_matching(&mut out, &bis, word, "", false, CompletionKind::Function, "Built-in function");
    push_matching(&mut out, &mcs, word, "@", false, CompletionKind::Function, "Macro");
    let ghost head = Seq::new(out@.len(), |i: int| completion_view(out@[i]));
    proof {
        reveal_strlit("");
        assert(""@ =~= Seq::<char>::empty());
        assert(head == completions_spec(word@, program@.take(0))) by {
            assert(program@.take(0) =~= Seq::<Expr>::empty());
        }
    }
    let mut i: usize = 0;
    while i < program.len()
        invariant
            i <= program.len(),
            Seq::new(out@.len(), |i: int| completion_view(out@[i])) == head + program_completions(
                program@.take(i as int),
                word@,
            ),
        decreases program.len() - i,
    {
        let ghost before = Seq::new(out@.len(), |i: int| completion_view(out@[i]));
        proof {
            assert(program@.take(i + 1).drop_last() =~= program@.take(i as int));
            assert(program@.take(i + 1).last() == program@[i as int]);
        }
        match &program[i] {
            Expr::EnumDef { name, variants, .. } => {
                let mut vs: Vec<String> = Vec::new();
                let mut k: usize = 0;
                while k < variants.len()
                    invariant
                        k <= variants.len(),
                        vs@.len() == k,
                        forall|j: int| 0 <= j < k ==> #[trigger] vs@[j]@ == variants@[j].0@,
                    decreases variants.len() - k,
                {
                    vs.push(variants[k].0.clone());
                    k += 1;
                }
                let mut prefix = name.clone();
                push_str(&mut prefix, "::");
                let mut detail = string_of("Enum variant of ");
                push_string(&mut detail, name);
                push_matching(&mut out, &vs, word, prefix.as_str(), true, CompletionKind::EnumMember, detail.as_str());
                proof {
                    assert(Seq::new(vs@.len(), |j: int| vs@[j]@) =~= Seq::new(
                        variants@.len(),
                        |j: int| variants@[j].0@,
                    ));
                }
            },
            Expr::UnionDef { name, variants } => {
                let mut vs: Vec<String> = Vec::new();
                let mut k: usize = 0;
                while k < variants.len()
                    invariant
                        k <= variants.len(),
                        vs@.len() == k,
                        forall|j: int| 0 <= j < k ==> #[trigger] vs@[j]@ == variants@[j].0@,
                    decreases variants.len() - k,
                {
                    vs.push(variants[k].0.clone());
                    k += 1;
                }
                let mut prefix = name.clone();
                push_str(&mut prefix, "::");
                let mut detail = string_of("Union variant of ");
                push_string(&mut detail, name);
                push_matching(&mut out, &vs, word, prefix.as_str(), true, CompletionKind::EnumMember, detail.as_str());
                proof {
                    assert(Seq::new(vs@.len(), |j: int| vs@[j]@) =~= Seq::new(
                        variants@.len(),
                        |j: int| variants@[j].0@,
                    ));
                }
            },
            Expr::FnDef { name, .. } => {
                if starts_with(name.as_str(), word) {
                    out.push(
                        Completion {
                            label: name.clone(),
                            kind: CompletionKind::Function,
                            detail: string_of("User-defined function"),
                        },
                    );
                    proof {
                        assert(Seq::new(out@.len(), |i: int| completion_view(out@[i])) =~= before.push(
                            (name@, CompletionKind::Function, "User-defined function"@),
                        ));
                    }
                } else {
                    proof {
                        assert(before + Seq::<(Seq<char>, CompletionKind, Seq<char>)>::empty() =~= before);
                    }
                }
            },
            _ => {
                proof {
                    assert(before + Seq::<(Seq<char>, CompletionKind, Seq<char>)>::empty() =~= before);
                }
            },
        }
        proof {
            assert(Seq::new(out@.len(), |i: int| completion_view(out@[i])) =~= head + program_completions(
                program@.take(i + 1),
                word@,
            ));
        }
        i += 1;
    }
    proof {
        assert(program@.take(program@.len() as int) =~= program@);
    }
    out
}

/// The hover text of a word, from the tables of keywords, types, built-in
/// functions and macros, in that order.
pub open spec fn hover_spec(w: Seq<char>) -> Option<Seq<char>> {
    if w == "let"@ {
        Some("Declare a variable\n\n```track\nlet x = 42;\n```"@)
    } else if w == "mut"@ {
        Some("Declare a mutable variable\n\n```track\nlet mut x = 42;\n```"@)
    } else if w == "fn"@ {
        Some("Define a function\n\n```track\nfn add(a: i32, b: i32) -> i32 {\n    return a + b;\n}\n```"@)
    } else if w == "return"@ {
        Some("Return from function"@)
    } else if w == "if"@ {
        Some("Conditional expression"@)
    } else if w == "else"@ {
        Some("Else branch"@)
    } else if w == "while"@ {
        Some("Loop"@)
    } else if w == "for"@ {
        Some("For-in loop\n\n```track\nfor i in 0..10 {\n    print(i);\n}\n```"@)
    } else if w == "in"@ {
        Some("Iteration in a for-in loop"@)
    } else if w == "use"@ {
        Some("Import items from a module (synonym for `import`)"@)
    } else if w == "type"@ {
        Some("Define a type alias\n\n```track\ntype Matrix = [i32; 16];\n```"@)
    } else if w == "struct"@ {
        Some("Define a struct"@)
    } else if w == "enum"@ {
        Some("Define an enum\n\n```track\nenum Color {\n    Red,\n    Green,\n    Blue,\n}\n```"@)
    } else if w == "union"@ {
        Some("Define a tagged union\n\n```track\nunion Value {\n    Int(i32),\n    Float(f64),\n}\n```"@)
    } else if w == "match"@ {
        Some("Pattern matching"@)
    } else if w == "with"@ {
        Some("Lexical lens block"@)
    } else if w == "const"@ {
        Some("Compile-time constant"@)
    } else if w == "true"@ {
        Some("Boolean true"@)
    } else if w == "false"@ {
        Some("Boolean false"@)
    } else if w == "as"@ {
        Some("Alias import"@)
    } else if w == "i8"@ {
        Some("8-bit signed integer (copy type)"@)
    } else if w == "u8"@ {
        Some("8-bit unsigned integer (copy type)"@)
    } else if w == "i32"@ {
        Some("32-bit signed integer (copy type)"@)
    } else if w == "u32"@ {
        Some("32-bit unsigned integer (copy type)"@)
    } else if w == "i64"@ {
        Some("64-bit signed integer (copy type)"@)
    } else if w == "u64"@ {
        Some("64-bit unsigned integer (copy type)"@)
    } else if w == "bool"@ {
        Some("Boolean (copy type)"@)
    } else if w == "void"@ {
        Some("Unit type (copy type)"@)
    } else if w == "ptr"@ {
        Some("Raw pointer (copy type)\n\n```track\nlet p: ptr<i32>;\n```"@)
    } else if w == "print"@ {
        Some("Print a value to stdout\n\n```track\nprint(42);\nprint(\"hello\");\n```"@)
    } else if w == "read"@ {
        Some("Read input\n\n```track\nlet value = read();\n```"@)
    } else if w == "@macro"@ {
        Some("Define a compile-time macro\n\n```track\n@macro double(n: i32) -> i32 {\n    return n * 2;\n}\n```"@)
    } else if w == "@compile_error"@ {
        Some("Trigger a compile-time error"@)
    } else if w == "@now"@ {
        Some("Get current timestamp"@)
    } else {
        None
    }
}

/// The hover text of a word, if it has one.
pub fn hover_doc(word: &str) -> (r: Option<String>)
    ensures
        match (r, hover_spec(word@)) {
            (Some(t), Some(d)) => t@ == d,
            (None, None) => true,
            _ => false,
        },
{
    let w = string_of(word);
    if w.eq(&string_of("let")) {
        Some(string_of("Declare a variable\n\n```track\nlet x = 42;\n```"))
    } else if w.eq(&string_of("mut")) {
        Some(string_of("Declare a mutable variable\n\n```track\nlet mut x = 42;\n```"))
    } else if w.eq(&string_of("fn")) {
        Some(string_of("Define a function\n\n```track\nfn add(a: i32, b: i32) -> i32 {\n    return a + b;\n}\n```"))
    } else if w.eq(&string_of("return")) {
        Some(string_of("Return from function"))
    } else if w.eq(&string_of("if")) {
        Some(string_of("Conditional expression"))
    } else if w.eq(&string_of("else")) {
        Some(string_of("Else branch"))
    } else if w.eq(&string_of("while")) {
        Some(string_of("Loop"))
    } else if w.eq(&string_of("for")) {
        Some(string_of("For-in loop\n\n```track\nfor i in 0..10 {\n    print(i);\n}\n```"))
    } else if w.eq(&string_of("in")) {
        Some(string_of("Iteration in a for-in loop"))
    } else if w.eq(&string_of("use")) {
        Some(string_of("Import items from a module (synonym for `import`)"))
    } else if w.eq(&string_of("type")) {
        Some(string_of("Define a type alias\n\n```track\ntype Matrix = [i32; 16];\n```"))
    } else if w.eq(&string_of("struct")) {
        Some(string_of("Define a struct"))
    } else if w.eq(&string_of("enum")) {
        Some(string_of("Define an enum\n\n```track\nenum Color {\n    Red,\n    Green,\n    Blue,\n}\n```"))
    } else if w.eq(&string_of("union")) {
        Some(string_of("Define a tagged union\n\n```track\nunion Value {\n    Int(i32),\n    Float(f64),\n}\n```"))
    } else if w.eq(&string_of("match")) {
        Some(string_of("Pattern matching"))
    } else if w.eq(&string_of("with")) {
        Some(string_of("Lexical lens block"))
    } else if w.eq(&string_of("const")) {
        Some(string_of("Compile-time constant"))
    } else if w.eq(&string_of("true")) {
        Some(string_of("Boolean true"))
    } else if w.eq(&string_of("false")) {
        Some(string_of("Boolean false"))
    } else if w.eq(&string_of("as")) {
        Some(string_of("Alias import"))
    } else if w.eq(&string_of("i8")) {
        Some(string_of("8-bit signed integer (copy type)"))
    } else if w.eq(&string_of("u8")) {
        Some(string_of("8-bit unsigned integer (copy type)"))
    } else if w.eq(&string_of("i32")) {
        Some(string_of("32-bit signed integer (copy type)"))
    } else if w.eq(&string_of("u32")) {
        Some(string_of("32-bit unsigned integer (copy type)"))
    } else if w.eq(&string_of("i64")) {
        Some(string_of("64-bit signed integer (copy type)"))
    } else if w.eq(&string_of("u64")) {
        Some(string_of("64-bit unsigned integer (copy type)"))
    } else if w.eq(&string_of("bool")) {
        Some(string_of("Boolean (copy type)"))
    } else if w.eq(&string_of("void")) {
        Some(string_of("Unit type (copy type)"))
    } else if w.eq(&string_of("ptr")) {
        Some(string_of("Raw pointer (copy type)\n\n```track\nlet p: ptr<i32>;\n```"))
    } else if w.eq(&string_of("print")) {
        Some(string_of("Print a value to stdout\n\n```track\nprint(42);\nprint(\"hello\");\n```"))
    } else if w.eq(&string_of("read")) {
        Some(string_of("Read input\n\n```track\nlet value = read();\n```"))
    } else if w.eq(&string_of("@macro")) {
        Some(string_of("Define a compile-time macro\n\n```track\n@macro double(n: i32) -> i32 {\n    return n * 2;\n}\n```"))
    } else if w.eq(&string_of("@compile_error")) {
        Some(string_of("Trigger a compile-time error"))
    } else if w.eq(&string_of("@now")) {
        Some(string_of("Get current timestamp"))
    } else {
        None
    }
}

} // verus!
