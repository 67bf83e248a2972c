//! A quote-aware splitter of shell command lines into list segments of words.
//!
//! A command line is cut into segments at the unquoted separators of shell
//! pipelines and lists (`|`, `;`, `&`, newline, `(`, `)`, backquote); each
//! segment is cut into words at unquoted whitespace. Single quotes, double
//! quotes and backslash escapes are honoured, so quoted text neither splits a
//! word nor ends a segment. A word records whether any part of it was quoted.
use vstd::prelude::*;
use crate::text::{char_vec, is_space, is_white_space, string_of};

verus! {

/// One shell word, with a note of whether any part of it was quoted.
pub struct Token {
    pub text: String,
    pub quoted: bool,
}

/// A word as a value: its characters and whether any part was quoted.
pub type Word = (Seq<char>, bool);

impl View for Token {
    type V = Word;

    open spec fn view(&self) -> Word {
        (self.text@, self.quoted)
    }
}

impl DeepView for Token {
    type V = Word;

    open spec fn deep_view(&self) -> Word {
        (self.text@, self.quoted)
    }
}

/// Characters that end a pipeline or list segment when they stand unquoted.
pub open spec fn is_separator(c: char) -> bool {
    c == '|' || c == ';' || c == '&' || c == '\n' || c == '(' || c == ')' || c == '`'
}

/// The state of the splitter between two characters.
pub struct Lexer {
    /// Completed segments.
    pub all: Seq<Seq<Word>>,
    /// Completed words of the current segment.
    pub segment: Seq<Word>,
    /// Characters of the current word.
    pub token: Seq<char>,
    /// Whether any part of the current word was quoted.
    pub quoted: bool,
    /// Inside a single-quoted span.
    pub in_single: bool,
    /// Inside a double-quoted span.
    pub in_double: bool,
}

/// The state before the first character.
pub open spec fn initial() -> Lexer {
    Lexer {
        all: Seq::empty(),
        segment: Seq::empty(),
        token: Seq::empty(),
        quoted: false,
        in_single: false,
        in_double: false,
    }
}

/// The segment after the current word ends: the word joins it when it has
/// characters or was quoted (so `''` is an empty word).
pub open spec fn flush(token: Seq<char>, quoted: bool, segment: Seq<Word>) -> Seq<Word> {
    if token.len() > 0 || quoted {
        segment.push((token, quoted))
    } else {
        segment
    }
}

/// The segments after the current segment ends: only a non-empty one is kept.
pub open spec fn close(segment: Seq<Word>, all: Seq<Seq<Word>>) -> Seq<Seq<Word>> {
    if segment.len() > 0 {
        all.push(segment)
    } else {
        all
    }
}

/// The state with `c` appended to the current word.
pub open spec fn with_char(st: Lexer, c: char) -> Lexer {
    Lexer { token: st.token.push(c), ..st }
}

/// A backslash at index `i`: the next character, if any, is taken literally,
/// and a backslash at the very end is dropped.
pub open spec fn escape(st: Lexer, s: Seq<char>, i: int) -> (Lexer, int) {
    if i + 1 < s.len() {
        (with_char(st, s[i + 1]), i + 2)
    } else {
        (st, i + 1)
    }
}

/// One step of the splitter at index `i < s.len()`: the next state and the
/// index of the next unread character.
pub open spec fn step(st: Lexer, s: Seq<char>, i: int) -> (Lexer, int) {
    let c = s[i];
    if st.in_single {
        if c == '\'' {
            (Lexer { in_single: false, ..st }, i + 1)
        } else {
            (with_char(st, c), i + 1)
        }
    } else if st.in_double {
        if c == '"' {
            (Lexer { in_double: false, ..st }, i + 1)
        } else if c == '\\' {
            escape(st, s, i)
        } else {
            (with_char(st, c), i + 1)
        }
    } else if c == '\'' {
        (Lexer { in_single: true, quoted: true, ..st }, i + 1)
    } else if c == '"' {
        (Lexer { in_double: true, quoted: true, ..st }, i + 1)
    } else if c == '\\' {
        escape(st, s, i)
    } else if is_separator(c) {
        (
            Lexer {
                all: close(flush(st.token, st.quoted, st.segment), st.all),
                segment: Seq::empty(),
                token: Seq::empty(),
                quoted: false,
                ..st
            },
            i + 1,
        )
    } else if is_white_space(c) {
        (
            Lexer {
                segment: flush(st.token, st.quoted, st.segment),
                token: Seq::empty(),
                quoted: false,
                ..st
            },
            i + 1,
        )
    } else {
        (with_char(st, c), i + 1)
    }
}

/// The segments once the input is exhausted: an open word and an open
/// segment are completed (an unterminated quote ends with the input).
pub open spec fn finish(st: Lexer) -> Seq<Seq<Word>> {
    close(flush(st.token, st.quoted, st.segment), st.all)
}

/// The segments produced from state `st` reading `s` from index `i` on.
pub open spec fn lex(st: Lexer, s: Seq<char>, i: int) -> Seq<Seq<Word>>
    decreases s.len() - i,
{
    if i < 0 || i >= s.len() {
        finish(st)
    } else {
        let (next, j) = step(st, s, i);
        lex(next, s, j)
    }
}

/// The segments of a command line.
pub open spec fn shell_segments(command: Seq<char>) -> Seq<Seq<Word>> {
    lex(initial(), command, 0)
}

/// The state that the splitter's variables stand for.
pub open spec fn state_of(
    all: Seq<Seq<Word>>,
    segment: Seq<Word>,
    token: Seq<char>,
    quoted: bool,
    in_single: bool,
    in_double: bool,
) -> Lexer {
    Lexer { all, segment, token, quoted, in_single, in_double }
}

/// Ends the current word: it joins `segment` when it has characters or was quoted.
fn flush_token(token: &mut Vec<char>, token_quoted: &mut bool, segment: &mut Vec<Token>)
    ensures
        final(segment).deep_view() == flush(old(token)@, *old(token_quoted), old(segment).deep_view()),
        final(token)@ == Seq::<char>::empty(),
        *final(token_quoted) == false,
{
    if token.len() > 0 || *token_quoted {
        let ghost before = segment.deep_view();
        let word = Token { text: string_of(token), quoted: *token_quoted };
        segment.push(word);
        assert(segment.deep_view() =~= before.push((old(token)@, *old(token_quoted))));
    }
    *token = Vec::new();
    *token_quoted = false;
}

/// Ends the current segment: it joins `all` when it holds a word.
fn close_segment(segment: &mut Vec<Token>, all: &mut Vec<Vec<Token>>)
    ensures
        final(all).deep_view() == close(old(segment).deep_view(), old(all).deep_view()),
        final(segment)@ == Seq::<Token>::empty(),
{
    if segment.len() > 0 {
        let ghost before = all.deep_view();
        let ghost seg = segment.deep_view();
        let mut done: Vec<Token> = Vec::new();
        std::mem::swap(&mut done, segment);
        all.push(done);
        assert(all.deep_view() =~= before.push(seg));
    } else {
        assert(segment.deep_view() =~= Seq::<Word>::empty());
    }
    *segment = Vec::new();
}

/// Split a command line into pipeline/list segments of whitespace-separated
/// tokens, tracking single quotes, double quotes, and backslash escapes so
/// that quoted text neither splits tokens nor ends segments.
pub fn segments(command: &str) -> (all: Vec<Vec<Token>>)
    ensures
        all.deep_view() == shell_segments(command@),
{
    let chars = char_vec(command);
    let n = chars.len();
    let mut all: Vec<Vec<Token>> = Vec::new();
    let mut segment: Vec<Token> = Vec::new();
    let mut token: Vec<char> = Vec::new();
    let mut token_quoted = false;
    let mut in_single = false;
    let mut in_double = false;
    let mut i: usize = 0;
    assert(all.deep_view() =~= Seq::<Seq<Word>>::empty());
    assert(segment.deep_view() =~= Seq::<Word>::empty());
    assert(state_of(all.deep_view(), segment.deep_view(), token@, token_quoted, in_single, in_double) == initial());
    while i < n
        invariant
            n == chars@.len(),
            chars@ == command@,
            i <= n,
            lex(
                state_of(all.deep_view(), segment.deep_view(), token@, token_quoted, in_single, in_double),
                chars@,
                i as int,
            ) == shell_segments(command@),
        decreases n - i,
    {
        let ghost before = state_of(all.deep_view(), segment.deep_view(), token@, token_quoted, in_single, in_double);
        let ghost at = i as int;
        let c = chars[i];
        if in_single {
            if c == '\'' {
                in_single = false;
            } else {
                token.push(c);
            }
            i = i + 1;
        } else if in_double {
            if c == '"' {
                in_double = false;
                i = i + 1;
            } else if c == '\\' {
                if i + 1 < n {
                    token.push(chars[i + 1]);
                    i = i + 2;
                } else {
                    i = i + 1;
                }
            } else {
                token.push(c);
                i = i + 1;
            }
        } else if c == '\'' {
            in_single = true;
            token_quoted = true;
            i = i + 1;
        } else if c == '"' {
            in_double = true;
            token_quoted = true;
            i = i + 1;
        } else if c == '\\' {
            if i + 1 < n {
                token.push(chars[i + 1]);
                i = i + 2;
            } else {
                i = i + 1;
            }
        } else if c == '|' || c == ';' || c == '&' || c == '\n' || c == '(' || c == ')' || c == '`' {
            flush_token(&mut token, &mut token_quoted, &mut segment);
            close_segment(&mut segment, &mut all);
            assert(segment.deep_view() =~= Seq::<Word>::empty());
            i = i + 1;
        } else if is_space(c) {
            flush_token(&mut token, &mut token_quoted, &mut segment);
            i = i + 1;
        } else {
            token.push(c);
            i = i + 1;
        }
        assert(step(before, chars@, at) == (
            state_of(all.deep_view(), segment.deep_view(), token@, token_quoted, in_single, in_double),
            i as int,
        ));
    }
    flush_token(&mut token, &mut token_quoted, &mut segment);
    close_segment(&mut segment, &mut all);
    all
}

/// A word that has characters or was quoted.
pub open spec fn word_ok(w: Word) -> bool {
    w.0.len() > 0 || w.1
}

/// Every word has characters or was quoted.
pub open spec fn words_ok(seg: Seq<Word>) -> bool {
    forall|k: int| 0 <= k < seg.len() ==> word_ok(#[trigger] seg[k])
}

/// Every segment holds at least one word, and every word has characters or
/// was quoted.
pub open spec fn segments_ok(segs: Seq<Seq<Word>>) -> bool {
    forall|s: int| 0 <= s < segs.len() ==> #[trigger] segs[s].len() > 0 && words_ok(segs[s])
}

spec fn state_ok(st: Lexer) -> bool {
    segments_ok(st.all) && words_ok(st.segment)
}

proof fn lemma_flush_ok(token: Seq<char>, quoted: bool, segment: Seq<Word>)
    requires
        words_ok(segment),
    ensures
        words_ok(flush(token, quoted, segment)),
{
    let f = flush(token, quoted, segment);
    assert forall|k: int| 0 <= k < f.len() implies word_ok(#[trigger] f[k]) by {
        if k < segment.len() {
            assert(f[k] == segment[k]);
        }
    }
}

proof fn lemma_close_ok(segment: Seq<Word>, all: Seq<Seq<Word>>)
    requires
        words_ok(segment),
        segments_ok(all),
    ensures
        segments_ok(close(segment, all)),
{
    let c = close(segment, all);
    assert forall|s: int| 0 <= s < c.len() implies #[trigger] c[s].len() > 0 && words_ok(c[s]) by {
        if s < all.len() {
            assert(c[s] == all[s]);
        }
    }
}

proof fn lemma_lex_ok(st: Lexer, s: Seq<char>, i: int)
    requires
        state_ok(st),
    ensures
        segments_ok(lex(st, s, i)),
    decreases s.len() - i,
{
    if i < 0 || i >= s.len() {
        lemma_flush_ok(st.token, st.quoted, st.segment);
        lemma_close_ok(flush(st.token, st.quoted, st.segment), st.all);
    } else {
        let (next, j) = step(st, s, i);
        lemma_flush_ok(st.token, st.quoted, st.segment);
        lemma_close_ok(flush(st.token, st.quoted, st.segment), st.all);
        assert(words_ok(Seq::<Word>::empty()));
        assert(state_ok(next));
        lemma_lex_ok(next, s, j);
    }
}

/// Law: no segment of a command line is empty, and every word has
/// characters or was quoted (so `''` is a word, but stray blanks are not).
pub proof fn law_segments_well_formed(command: Seq<char>)
    ensures
        segments_ok(shell_segments(command)),
{
    assert(segments_ok(Seq::<Seq<Word>>::empty()));
    assert(words_ok(Seq::<Word>::empty()));
    lemma_lex_ok(initial(), command, 0);
}

/// Reading characters other than `'` inside a single-quoted span appends
/// them to the current word.
proof fn lemma_single_quoted_run(st: Lexer, s: Seq<char>, i: int, j: int)
    requires
        st.in_single,
        0 <= i <= j <= s.len(),
        forall|k: int| i <= k < j ==> #[trigger] s[k] != '\'',
    ensures
        lex(st, s, i) == lex(Lexer { token: st.token + s.subrange(i, j), ..st }, s, j),
    decreases j - i,
{
    if i == j {
        assert(st.token + s.subrange(i, j) =~= st.token);
        assert(Lexer { token: st.token + s.subrange(i, j), ..st } == st);
    } else {
        let next = with_char(st, s[i]);
        assert(step(st, s, i) == (next, i + 1));
        lemma_single_quoted_run(next, s, i + 1, j);
        assert(next.token + s.subrange(i + 1, j) =~= st.token + s.subrange(i, j));
    }
}

/// Law: a single-quoted span is one quoted word, whatever it holds
/// (blanks, separators, backslashes, double quotes): the command `'x'`
/// is the one segment holding the one word `x`, marked quoted.
pub proof fn law_single_quoted_word(x: Seq<char>)
    requires
        !x.contains('\''),
    ensures
        shell_segments(seq!['\''] + x + seq!['\'']) == seq![seq![(x, true)]],
{
    let s = seq!['\''] + x + seq!['\''];
    let n = s.len() as int;
    let st1 = Lexer { in_single: true, quoted: true, ..initial() };
    assert(s[0] == '\'');
    assert(step(initial(), s, 0) == (st1, 1int));
    assert forall|k: int| 1 <= k < n - 1 implies #[trigger] s[k] != '\'' by {
        assert(s[k] == x[k - 1]);
    }
    lemma_single_quoted_run(st1, s, 1, n - 1);
    assert(s.subrange(1, n - 1) =~= x);
    let st2 = Lexer { token: x, ..st1 };
    assert(step(st2, s, n - 1) == (Lexer { in_single: false, ..st2 }, n));
    let st3 = Lexer { in_single: false, ..st2 };
    assert(lex(st3, s, n) == finish(st3));
    assert(finish(st3) =~= seq![seq![(x, true)]]);
}

/// Completed segments are never revisited: segments completed before a
/// point of the scan stand unchanged at the head of the result.
proof fn lemma_lex_keeps_done(st: Lexer, s: Seq<char>, i: int, done: Seq<Seq<Word>>)
    ensures
        lex(Lexer { all: done + st.all, ..st }, s, i) == done + lex(st, s, i),
    decreases s.len() - i,
{
    let st2 = Lexer { all: done + st.all, ..st };
    let f = flush(st.token, st.quoted, st.segment);
    assert(close(f, done + st.all) =~= done + close(f, st.all));
    if i < 0 || i >= s.len() {
    } else {
        let (next, j) = step(st, s, i);
        let (next2, j2) = step(st2, s, i);
        assert(j2 == j);
        assert(next2 == Lexer { all: done + next.all, ..next });
        lemma_lex_keeps_done(next, s, j, done);
    }
}

/// The scan from index `i` depends only on the characters from `i` on.
proof fn lemma_lex_shift(st: Lexer, s: Seq<char>, i: int, d: int)
    requires
        0 <= d <= i,
        d <= s.len(),
    ensures
        lex(st, s, i) == lex(st, s.skip(d), i - d),
    decreases s.len() - i,
{
    let t = s.skip(d);
    assert(t.len() == s.len() - d);
    if i >= s.len() {
        assert(lex(st, t, i - d) == finish(st));
    } else {
        assert(t[i - d] == s[i]);
        if i + 1 < s.len() {
            assert(t[i + 1 - d] == s[i + 1]);
        }
        let (next, j) = step(st, s, i);
        assert(step(st, t, i - d) == (next, j - d));
        lemma_lex_shift(next, s, j, d);
        assert(lex(st, t, i - d) == lex(next, t, j - d));
    }
}

/// The state after reading `a` from index `i` to its end, and whether the
/// reading ended cleanly: `false` when the last character is a backslash
/// outside single quotes, which would escape whatever came next.
pub open spec fn scan(st: Lexer, a: Seq<char>, i: int) -> (Lexer, bool)
    decreases a.len() - i,
{
    if i < 0 || i >= a.len() {
        (st, true)
    } else if a[i] == '\\' && !st.in_single && i + 1 >= a.len() {
        (st, false)
    } else {
        let (next, j) = step(st, a, i);
        scan(next, a, j)
    }
}

/// A command that, read from the start, ends outside any quote and not in
/// the middle of an escape.
pub open spec fn ends_outside(a: Seq<char>) -> bool {
    let (st, clean) = scan(initial(), a, 0);
    clean && !st.in_single && !st.in_double
}

/// Whatever follows a cleanly read text, the scan reaches the end of the
/// text in the same state.
proof fn lemma_scan(st: Lexer, a: Seq<char>, r: Seq<char>, i: int)
    requires
        0 <= i <= a.len(),
        scan(st, a, i).1,
    ensures
        lex(st, a + r, i) == lex(scan(st, a, i).0, a + r, a.len() as int),
    decreases a.len() - i,
{
    if i < a.len() {
        let s = a + r;
        assert(s[i] == a[i]);
        if i + 1 < a.len() {
            assert(s[i + 1] == a[i + 1]);
        }
        let (next, j) = step(st, a, i);
        assert(step(st, s, i) == (next, j));
        assert(i < j <= a.len());
        lemma_scan(next, a, r, j);
    }
}

/// Law: an unquoted separator ends its segment: when a command `a` ends
/// outside any quote and not in the middle of an escape, the segments of
/// `a`, a separator (`|`, `;`, `&`, newline, `(`, `)` or backquote), then
/// `b` are those of `a` followed by those of `b`.
pub proof fn law_separator_splits(a: Seq<char>, sep: char, b: Seq<char>)
    requires
        ends_outside(a),
        is_separator(sep),
    ensures
        shell_segments(a + seq![sep] + b) == shell_segments(a) + shell_segments(b),
{
    let s = a + seq![sep] + b;
    let n = a.len() as int;
    assert(a + (seq![sep] + b) =~= s);
    lemma_scan(initial(), a, seq![sep] + b, 0);
    let sa = scan(initial(), a, 0).0;
    assert(a + Seq::<char>::empty() =~= a);
    lemma_scan(initial(), a, Seq::<char>::empty(), 0);
    assert(shell_segments(a) == finish(sa));
    assert(s[n] == sep);
    let after = Lexer { all: finish(sa), ..initial() };
    assert(step(sa, s, n) == (after, n + 1));
    assert(lex(sa, s, n) == lex(after, s, n + 1));
    assert(finish(sa) + initial().all =~= finish(sa));
    lemma_lex_keeps_done(initial(), s, n + 1, finish(sa));
    lemma_lex_shift(initial(), s, n + 1, n + 1);
    assert(s.skip(n + 1) =~= b);
}

/// Reading characters other than `"` and `\` inside a double-quoted span
/// appends them to the current word.
proof fn lemma_double_quoted_run(st: Lexer, s: Seq<char>, i: int, j: int)
    requires
        st.in_double,
        !st.in_single,
        0 <= i <= j <= s.len(),
        forall|k: int| i <= k < j ==> #[trigger] s[k] != '"' && s[k] != '\\',
    ensures
        lex(st, s, i) == lex(Lexer { token: st.token + s.subrange(i, j), ..st }, s, j),
    decreases j - i,
{
    if i == j {
        assert(st.token + s.subrange(i, j) =~= st.token);
        assert(Lexer { token: st.token + s.subrange(i, j), ..st } == st);
    } else {
        let next = with_char(st, s[i]);
        assert(step(st, s, i) == (next, i + 1));
        lemma_double_quoted_run(next, s, i + 1, j);
        assert(next.token + s.subrange(i + 1, j) =~= st.token + s.subrange(i, j));
    }
}

/// Law: a double-quoted span without `"` or `\` inside is one quoted word,
/// whatever blanks, separators or single quotes it holds.
pub proof fn law_double_quoted_word(x: Seq<char>)
    requires
        !x.contains('"'),
        !x.contains('\\'),
    ensures
        shell_segments(seq!['"'] + x + seq!['"']) == seq![seq![(x, true)]],
{
    let s = seq!['"'] + x + seq!['"'];
    let n = s.len() as int;
    let st1 = Lexer { in_double: true, quoted: true, ..initial() };
    assert(s[0] == '"');
    assert(step(initial(), s, 0) == (st1, 1int));
    assert forall|k: int| 1 <= k < n - 1 implies #[trigger] s[k] != '"' && s[k] != '\\' by {
        assert(s[k] == x[k - 1]);
    }
    lemma_double_quoted_run(st1, s, 1, n - 1);
    assert(s.subrange(1, n - 1) =~= x);
    let st2 = Lexer { token: x, ..st1 };
    assert(step(st2, s, n - 1) == (Lexer { in_double: false, ..st2 }, n));
    let st3 = Lexer { in_double: false, ..st2 };
    assert(lex(st3, s, n) == finish(st3));
    assert(finish(st3) =~= seq![seq![(x, true)]]);
}

/// The pieces of `s` between the characters that satisfy `p`, as
/// `str::split` with a character predicate gives them: `k` such characters
/// give `k + 1` pieces, empty ones included.
pub open spec fn pieces(s: Seq<char>, p: spec_fn(char) -> bool) -> Seq<Seq<char>>
    decreases s.len(),
{
    if s.len() == 0 {
        seq![Seq::<char>::empty()]
    } else {
        let r = pieces(s.drop_last(), p);
        if p(s.last()) {
            r.push(Seq::<char>::empty())
        } else {
            r.update(r.len() - 1, r.last().push(s.last()))
        }
    }
}

/// The non-empty pieces, as unquoted words.
pub open spec fn keep_words(ps: Seq<Seq<char>>) -> Seq<Word>
    decreases ps.len(),
{
    if ps.len() == 0 {
        Seq::empty()
    } else {
        let w = keep_words(ps.drop_last());
        if ps.last().len() > 0 {
            w.push((ps.last(), false))
        } else {
            w
        }
    }
}

/// The words of `s` as `str::split_whitespace` gives them (the pieces
/// between `White_Space` characters, empty ones dropped), unquoted.
pub open spec fn whitespace_words(s: Seq<char>) -> Seq<Word> {
    keep_words(pieces(s, |c: char| is_white_space(c)))
}

/// The word lists of the pieces that have words.
pub open spec fn keep_segments(ps: Seq<Seq<char>>) -> Seq<Seq<Word>>
    decreases ps.len(),
{
    if ps.len() == 0 {
        Seq::empty()
    } else {
        let r = keep_segments(ps.drop_last());
        let w = whitespace_words(ps.last());
        if w.len() > 0 {
            r.push(w)
        } else {
            r
        }
    }
}

/// The segments of text without quotes or backslashes, by splitting: cut at
/// the separators (`str::split`), cut each piece into words
/// (`str::split_whitespace`), and drop the pieces without words.
pub open spec fn split_segments(s: Seq<char>) -> Seq<Seq<Word>> {
    keep_segments(pieces(s, |c: char| is_separator(c)))
}

/// Text without quotes or backslashes.
pub open spec fn is_plain(a: Seq<char>) -> bool {
    forall|k: int| 0 <= k < a.len() ==> #[trigger] a[k] != '\'' && a[k] != '"' && a[k] != '\\'
}

proof fn lemma_pieces_nonempty(s: Seq<char>, p: spec_fn(char) -> bool)
    ensures
        pieces(s, p).len() >= 1,
    decreases s.len(),
{
    if s.len() > 0 {
        lemma_pieces_nonempty(s.drop_last(), p);
    }
}

/// The state of the splitter after reading the plain prefix `t`, told by
/// the split model.
spec fn split_state(t: Seq<char>) -> Lexer {
    let ps = pieces(t, |c: char| is_separator(c));
    let qs = pieces(ps.last(), |c: char| is_white_space(c));
    Lexer {
        all: keep_segments(ps.drop_last()),
        segment: keep_words(qs.drop_last()),
        token: qs.last(),
        quoted: false,
        in_single: false,
        in_double: false,
    }
}

/// One plain character moves the split state as one step of the splitter.
proof fn lemma_split_step(s: Seq<char>, i: int)
    requires
        is_plain(s),
        0 <= i < s.len(),
    ensures
        step(split_state(s.take(i)), s, i) == (split_state(s.take(i + 1)), i + 1),
{
    let sep = |c: char| is_separator(c);
    let ws = |c: char| is_white_space(c);
    let t = s.take(i);
    let t1 = s.take(i + 1);
    let c = s[i];
    assert(t1.drop_last() =~= t);
    assert(t1.last() == c);
    assert(c != '\'' && c != '"' && c != '\\');
    let ps = pieces(t, sep);
    lemma_pieces_nonempty(t, sep);
    let l = ps.last();
    let qs = pieces(l, ws);
    lemma_pieces_nonempty(l, ws);
    let st = split_state(t);
    assert(pieces(t1, sep) == if sep(c) {
        ps.push(Seq::<char>::empty())
    } else {
        ps.update(ps.len() - 1, l.push(c))
    });
    assert(keep_words(qs) == flush(qs.last(), false, keep_words(qs.drop_last())));
    if is_separator(c) {
        let ps1 = ps.push(Seq::<char>::empty());
        assert(ps1.drop_last() =~= ps);
        assert(keep_segments(ps) == close(keep_words(qs), keep_segments(ps.drop_last())));
        let e = Seq::<char>::empty();
        assert(pieces(e, ws) == seq![e]);
        assert(seq![e].drop_last() =~= Seq::<Seq<char>>::empty());
        assert(keep_words(Seq::<Seq<char>>::empty()) == Seq::<Word>::empty());
        assert(split_state(t1) == Lexer {
            all: close(flush(st.token, st.quoted, st.segment), st.all),
            segment: Seq::empty(),
            token: Seq::empty(),
            quoted: false,
            ..st
        });
    } else {
        let ps1 = ps.update(ps.len() - 1, l.push(c));
        assert(ps1.drop_last() =~= ps.drop_last());
        assert(ps1.last() == l.push(c));
        let l1 = l.push(c);
        assert(l1.drop_last() =~= l);
        assert(l1.last() == c);
        if is_white_space(c) {
            let qs1 = qs.push(Seq::<char>::empty());
            assert(pieces(l1, ws) == qs1);
            assert(qs1.drop_last() =~= qs);
            assert(split_state(t1) == Lexer {
                segment: flush(st.token, st.quoted, st.segment),
                token: Seq::empty(),
                quoted: false,
                ..st
            });
        } else {
            let qs1 = qs.update(qs.len() - 1, qs.last().push(c));
            assert(pieces(l1, ws) == qs1);
            assert(qs1.drop_last() =~= qs.drop_last());
            assert(split_state(t1) == with_char(st, c));
        }
    }
}

proof fn lemma_split_lex(s: Seq<char>, i: int)
    requires
        is_plain(s),
        0 <= i <= s.len(),
    ensures
        lex(split_state(s.take(i)), s, i) == finish(split_state(s)),
    decreases s.len() - i,
{
    if i == s.len() {
        assert(s.take(i) =~= s);
    } else {
        lemma_split_step(s, i);
        lemma_split_lex(s, i + 1);
    }
}

/// Law: on text without quotes or backslashes the splitter is plain
/// splitting: the segments are the pieces between separators, each cut into
/// its whitespace-separated words, with the pieces that have no words
/// dropped; no word is quoted.
pub proof fn law_plain_segments(command: Seq<char>)
    requires
        is_plain(command),
    ensures
        shell_segments(command) == split_segments(command),
{
    let sep = |c: char| is_separator(c);
    let ws = |c: char| is_white_space(c);
    let e = Seq::<char>::empty();
    assert(command.take(0) =~= e);
    assert(pieces(e, sep) == seq![e]);
    assert(pieces(e, ws) == seq![e]);
    assert(seq![e].drop_last() =~= Seq::<Seq<char>>::empty());
    assert(split_state(e) == initial());
    lemma_split_lex(command, 0);
    let ps = pieces(command, sep);
    lemma_pieces_nonempty(command, sep);
    let qs = pieces(ps.last(), ws);
    lemma_pieces_nonempty(ps.last(), ws);
    assert(keep_words(qs) == flush(qs.last(), false, keep_words(qs.drop_last())));
    assert(keep_segments(ps) == close(keep_words(qs), keep_segments(ps.drop_last())));
}

/// Text without quote characters (backslashes allowed).
pub open spec fn has_no_quotes(a: Seq<char>) -> bool {
    forall|k: int| 0 <= k < a.len() ==> #[trigger] a[k] != '\'' && a[k] != '"'
}

/// No word of the segments is quoted.
pub open spec fn all_unquoted(segs: Seq<Seq<Word>>) -> bool {
    forall|s: int, k: int| 0 <= s < segs.len() && 0 <= k < segs[s].len() ==> !(#[trigger] segs[s][k]).1
}

spec fn unquoted_words(seg: Seq<Word>) -> bool {
    forall|k: int| 0 <= k < seg.len() ==> !(#[trigger] seg[k]).1
}

spec fn unquoted_state(st: Lexer) -> bool {
    &&& !st.quoted
    &&& !st.in_single
    &&& !st.in_double
    &&& all_unquoted(st.all)
    &&& unquoted_words(st.segment)
}

proof fn lemma_unquoted_finish(st: Lexer)
    requires
        unquoted_state(st),
    ensures
        unquoted_words(flush(st.token, st.quoted, st.segment)),
        all_unquoted(finish(st)),
{
    let f = flush(st.token, st.quoted, st.segment);
    assert forall|k: int| 0 <= k < f.len() implies !(#[trigger] f[k]).1 by {
        if k < st.segment.len() {
            assert(f[k] == st.segment[k]);
        }
    }
    let c = finish(st);
    assert forall|s: int, k: int| 0 <= s < c.len() && 0 <= k < c[s].len() implies !(#[trigger] c[s][k]).1 by {
        if s < st.all.len() {
            assert(c[s] == st.all[s]);
        } else {
            assert(c[s] == f);
        }
    }
}

proof fn lemma_lex_unquoted(st: Lexer, s: Seq<char>, i: int)
    requires
        has_no_quotes(s),
        unquoted_state(st),
    ensures
        all_unquoted(lex(st, s, i)),
    decreases s.len() - i,
{
    lemma_unquoted_finish(st);
    if 0 <= i < s.len() {
        let (next, j) = step(st, s, i);
        assert(s[i] != '\'' && s[i] != '"');
        assert(unquoted_words(Seq::<Word>::empty()));
        assert(unquoted_state(next));
        lemma_lex_unquoted(next, s, j);
    }
}

/// Law: a command with no quote characters yields only unquoted words
/// (backslash escapes do not make a word quoted).
pub proof fn law_unquoted_words(command: Seq<char>)
    requires
        has_no_quotes(command),
    ensures
        all_unquoted(shell_segments(command)),
{
    assert(unquoted_words(Seq::<Word>::empty()));
    assert(all_unquoted(Seq::<Seq<Word>>::empty()));
    lemma_lex_unquoted(initial(), command, 0);
}

/// Text without any character that satisfies `p` is one piece.
pub proof fn lemma_pieces_whole(s: Seq<char>, p: spec_fn(char) -> bool)
    requires
        forall|k: int| 0 <= k < s.len() ==> !p(#[trigger] s[k]),
    ensures
        pieces(s, p) == seq![s],
    decreases s.len(),
{
    if s.len() > 0 {
        lemma_pieces_whole(s.drop_last(), p);
        assert(s.drop_last().push(s.last()) =~= s);
        assert(seq![s.drop_last()].update(0, s.drop_last().push(s.last())) =~= seq![s]);
    } else {
        assert(s =~= Seq::<char>::empty());
    }
}

/// Appending text without `p` characters extends the last piece.
pub proof fn lemma_pieces_extend(x: Seq<char>, w: Seq<char>, p: spec_fn(char) -> bool)
    requires
        forall|k: int| 0 <= k < w.len() ==> !p(#[trigger] w[k]),
    ensures
        pieces(x + w, p) == pieces(x, p).update(
            pieces(x, p).len() - 1,
            pieces(x, p).last() + w,
        ),
    decreases w.len(),
{
    lemma_pieces_nonempty(x, p);
    let px = pieces(x, p);
    if w.len() == 0 {
        assert(x + w =~= x);
        assert(px.last() + w =~= px.last());
        assert(px.update(px.len() - 1, px.last() + w) =~= px);
    } else {
        let w0 = w.drop_last();
        lemma_pieces_extend(x, w0, p);
        assert((x + w).drop_last() =~= x + w0);
        assert((x + w).last() == w.last());
        assert(!p(w[w.len() - 1]));
        let q = px.update(px.len() - 1, px.last() + w0);
        assert(q.last().push(w.last()) =~= px.last() + w);
        assert(q.update(q.len() - 1, q.last().push(w.last())) =~= px.update(px.len() - 1, px.last() + w));
    }
}

/// Appending a `p` character opens a new, empty piece.
pub proof fn lemma_pieces_cut(x: Seq<char>, c: char, p: spec_fn(char) -> bool)
    requires
        p(c),
    ensures
        pieces(x.push(c), p) == pieces(x, p).push(Seq::<char>::empty()),
{
    assert(x.push(c).drop_last() =~= x);
}

/// The words of pieces with one more piece after them.
pub proof fn lemma_keep_words_push(ps: Seq<Seq<char>>, q: Seq<char>)
    ensures
        keep_words(ps.push(q)) == if q.len() > 0 {
            keep_words(ps).push((q, false))
        } else {
            keep_words(ps)
        },
{
    assert(ps.push(q).drop_last() =~= ps);
}

/// The segments of a plain text without separators: its words, if any.
pub proof fn lemma_one_piece(t: Seq<char>)
    requires
        is_plain(t),
        forall|k: int| 0 <= k < t.len() ==> !is_separator(#[trigger] t[k]),
    ensures
        shell_segments(t) == if whitespace_words(t).len() > 0 {
            seq![whitespace_words(t)]
        } else {
            Seq::<Seq<Word>>::empty()
        },
{
    law_plain_segments(t);
    let sep = |c: char| is_separator(c);
    lemma_pieces_whole(t, sep);
    assert(seq![t].drop_last() =~= Seq::<Seq<char>>::empty());
    assert(keep_segments(Seq::<Seq<char>>::empty()) == Seq::<Seq<Word>>::empty());
    assert(Seq::<Seq<Word>>::empty().push(whitespace_words(t)) =~= seq![whitespace_words(t)]);
}

} // verus!
