//! The ripgrep `-r` footgun: in ripgrep `-r` is `--replace`, not grep's
//! `--recursive`, so a short-flag cluster such as `-rn` parses as
//! `--replace n` and silently rewrites every match to the letter `n`.
//! A command is flagged when some segment invokes `rg` and a later unquoted
//! flag of that segment, before an unquoted `--`, is such a cluster.
use vstd::prelude::*;
use crate::payload::{hook_command, payload_command};
use crate::shell::{
    ends_outside, is_plain, is_separator, keep_words, law_separator_splits,
    law_single_quoted_word, lemma_keep_words_push, lemma_one_piece, lemma_pieces_cut,
    lemma_pieces_extend, lemma_pieces_whole, pieces, segments, shell_segments, whitespace_words,
    Token, Word,
};
use crate::text::{char_vec, is_alnum, is_ascii_alnum, is_white_space};

verus! {

/// An unquoted word naming the ripgrep binary: `rg`, or a path ending in `/rg`.
pub open spec fn is_rg_word(w: Word) -> bool {
    let t = w.0;
    &&& !w.1
    &&& (t == seq!['r', 'g'] || (t.len() >= 3 && t.subrange(t.len() - 3, t.len() as int) == seq![
        '/',
        'r',
        'g',
    ]))
}

/// An unquoted short-flag cluster of at least two ASCII letters or digits, one
/// of them `r`: the `--replace` footgun. A bare `-r` is deliberate and is not one.
pub open spec fn is_footgun_word(w: Word) -> bool {
    let t = w.0;
    &&& !w.1
    &&& t.len() >= 3
    &&& t[0] == '-'
    &&& t.drop_first().contains('r')
    &&& forall|k: int| 1 <= k < t.len() ==> is_ascii_alnum(#[trigger] t[k])
}

/// An unquoted `--`, the end of options.
pub open spec fn is_end_of_options(w: Word) -> bool {
    !w.1 && w.0 == seq!['-', '-']
}

/// Word `j` is a footgun flag of the `rg` at word `i`, with no end of
/// options between them.
pub open spec fn footgun_at(seg: Seq<Word>, i: int, j: int) -> bool {
    &&& 0 <= i < j < seg.len()
    &&& is_rg_word(seg[i])
    &&& is_footgun_word(seg[j])
    &&& forall|k: int| i < k < j ==> !is_end_of_options(#[trigger] seg[k])
}

/// Some `rg` of the segment is followed by a footgun flag.
pub open spec fn segment_has_footgun(seg: Seq<Word>) -> bool {
    exists|i: int, j: int| footgun_at(seg, i, j)
}

/// Some segment has a footgun.
pub open spec fn has_footgun(segs: Seq<Seq<Word>>) -> bool {
    exists|s: int| 0 <= s < segs.len() && segment_has_footgun(#[trigger] segs[s])
}

/// True when this unquoted token names the ripgrep binary.
pub fn is_rg(token: &Token) -> (b: bool)
    ensures
        b == is_rg_word(token@),
{
    if token.quoted {
        return false;
    }
    let t = char_vec(token.text.as_str());
    let n = t.len();
    let exact = n == 2 && t[0] == 'r' && t[1] == 'g';
    let suffix = n >= 3 && t[n - 3] == '/' && t[n - 2] == 'r' && t[n - 1] == 'g';
    proof {
        let v = token.text@;
        if n == 2 {
            assert(exact <==> v =~= seq!['r', 'g']);
        } else {
            assert(v != seq!['r', 'g']);
        }
        if n >= 3 {
            assert(suffix <==> v.subrange(n - 3, n as int) =~= seq!['/', 'r', 'g']);
        }
    }
    exact || suffix
}

/// True when an unquoted flag token after `rg` is a short-flag cluster that
/// contains `r` alongside other letters — the `--replace` footgun. A bare
/// `-r` is deliberate replace usage and is allowed.
pub fn is_footgun_flag(token: &Token) -> (b: bool)
    ensures
        b == is_footgun_word(token@),
{
    if token.quoted {
        return false;
    }
    let t = char_vec(token.text.as_str());
    let n = t.len();
    if n < 3 || t[0] != '-' {
        return false;
    }
    let mut has_r = false;
    let mut k: usize = 1;
    while k < n
        invariant
            t@ == token.text@,
            n == t@.len(),
            n >= 3,
            t@[0] == '-',
            1 <= k <= n,
            forall|m: int| 1 <= m < k ==> is_ascii_alnum(#[trigger] t@[m]),
            has_r <==> exists|m: int| 1 <= m < k && #[trigger] t@[m] == 'r',
        decreases n - k,
    {
        if !is_alnum(t[k]) {
            return false;
        }
        if t[k] == 'r' {
            has_r = true;
        }
        k = k + 1;
    }
    proof {
        let rest = t@.drop_first();
        if has_r {
            let m = choose|m: int| 1 <= m < n && #[trigger] t@[m] == 'r';
            assert(rest[m - 1] == 'r');
        }
        if rest.contains('r') {
            let x = choose|x: int| 0 <= x < rest.len() && #[trigger] rest[x] == 'r';
            assert(t@[x + 1] == 'r');
        }
    }
    has_r
}

/// Whether the `rg` at word `i` of a segment is followed by a footgun flag
/// before an unquoted `--`.
fn footgun_after(segment: &Vec<Token>, i: usize) -> (b: bool)
    requires
        i < segment@.len(),
        is_rg_word(segment.deep_view()[i as int]),
    ensures
        b == exists|j: int| footgun_at(segment.deep_view(), i as int, j),
{
    let ghost seg = segment.deep_view();
    let n = segment.len();
    let mut j: usize = i + 1;
    while j < segment.len()
        invariant
            seg == segment.deep_view(),
            i < j <= segment@.len(),
            is_rg_word(seg[i as int]),
            forall|k: int| i < k < j ==> !is_end_of_options(#[trigger] seg[k]) && !is_footgun_word(seg[k]),
        decreases segment.len() - j,
    {
        let later = &segment[j];
        assert(later@ == seg[j as int]);
        let end = !later.quoted && later.text.as_str().unicode_len() == 2
            && later.text.as_str().get_char(0) == '-' && later.text.as_str().get_char(1) == '-';
        assert(end == is_end_of_options(seg[j as int])) by {
            if later.text@.len() == 2 && later.text@[0] == '-' && later.text@[1] == '-' {
                assert(later.text@ =~= seq!['-', '-']);
            }
        }
        if end {
            assert forall|b: int| !#[trigger] footgun_at(seg, i as int, b) by {
                if b > j {
                    assert(is_end_of_options(seg[j as int]));
                }
            }
            return false;
        }
        if is_footgun_flag(later) {
            assert(footgun_at(seg, i as int, j as int));
            return true;
        }
        j = j + 1;
    }
    false
}

/// Scan every command segment for an rg invocation followed by a footgun
/// cluster, stopping at an unquoted `--` (end of options).
pub fn command_has_footgun(command: &str) -> (b: bool)
    ensures
        b == has_footgun(shell_segments(command@)),
{
    let all = segments(command);
    let ghost segs = shell_segments(command@);
    let mut si: usize = 0;
    while si < all.len()
        invariant
            all.deep_view() == segs,
            segs == shell_segments(command@),
            si <= all@.len(),
            forall|s: int| 0 <= s < si ==> !segment_has_footgun(#[trigger] segs[s]),
        decreases all.len() - si,
    {
        let segment = &all[si];
        let ghost seg = segs[si as int];
        assert(segment.deep_view() =~= seg);
        let mut i: usize = 0;
        while i < segment.len()
            invariant
                all.deep_view() == segs,
                segs == shell_segments(command@),
                si < segs.len(),
                seg == segs[si as int],
                segment.deep_view() == seg,
                i <= segment@.len(),
                forall|a: int, j: int| 0 <= a < i ==> !#[trigger] footgun_at(seg, a, j),
            decreases segment.len() - i,
        {
            assert(segment[i as int]@ == seg[i as int]);
            if is_rg(&segment[i]) {
                if footgun_after(segment, i) {
                    assert(segment_has_footgun(segs[si as int]));
                    assert(has_footgun(segs));
                    return true;
                }
            }
            i = i + 1;
        }
        assert(!segment_has_footgun(segs[si as int]));
        si = si + 1;
    }
    false
}

/// Why a footgun command is refused, and how to retry it.
pub const DENY_REASON: &'static str = "In ripgrep, -r is --replace (not grep's --recursive), so a cluster like -rn parses as `--replace n` and silently rewrites every match to the literal letter n. ripgrep recurses by default: re-run with `rg -n PATTERN` (or plain `rg`), and spell out --replace if you genuinely meant it.";

/// A proposed command is refused when it is non-empty and has the footgun.
pub open spec fn refuses(command: Seq<char>) -> bool {
    command.len() > 0 && has_footgun(shell_segments(command))
}

/// Whether the proposed command `command` is to be refused.
pub fn refuse_command(command: &str) -> (deny: bool)
    ensures
        deny == refuses(command@),
{
    !command.is_empty() && command_has_footgun(command)
}

/// Whether the tool-use `payload` is to be refused. A payload that is not
/// JSON, or holds no `tool_input.command` string, is let through.
pub fn refuse_payload(payload: &str) -> (deny: bool)
    ensures
        deny == refuses(payload_command(payload@)),
{
    let command = hook_command(payload);
    refuse_command(command.as_str())
}

/// Law: footguns are found segment by segment: the segments `x` followed by
/// the segments `y` have one exactly when `x` or `y` has one.
pub proof fn law_footgun_per_segment(x: Seq<Seq<Word>>, y: Seq<Seq<Word>>)
    ensures
        has_footgun(x + y) <==> has_footgun(x) || has_footgun(y),
{
    let xy = x + y;
    if has_footgun(xy) {
        let s = choose|s: int| 0 <= s < xy.len() && segment_has_footgun(#[trigger] xy[s]);
        if s < x.len() {
            assert(xy[s] == x[s]);
        } else {
            assert(xy[s] == y[s - x.len()]);
        }
    }
    if has_footgun(x) {
        let s = choose|s: int| 0 <= s < x.len() && segment_has_footgun(#[trigger] x[s]);
        assert(xy[s] == x[s]);
    }
    if has_footgun(y) {
        let s = choose|s: int| 0 <= s < y.len() && segment_has_footgun(#[trigger] y[s]);
        assert(xy[s + x.len()] == y[s]);
    }
}

/// Law: a command `a ; b` whose first part ends outside any quote and not
/// in the middle of an escape, joined by any unquoted separator, has the
/// footgun exactly when `a` or `b` has it: a separator both ends an `rg`
/// invocation and starts a fresh one.
pub proof fn law_footgun_across_separator(a: Seq<char>, sep: char, b: Seq<char>)
    requires
        ends_outside(a),
        is_separator(sep),
    ensures
        has_footgun(shell_segments(a + seq![sep] + b)) <==> has_footgun(shell_segments(a))
            || has_footgun(shell_segments(b)),
{
    law_separator_splits(a, sep, b);
    law_footgun_per_segment(shell_segments(a), shell_segments(b));
}

/// Law: quoted words are inert: a word with any quoted part never names
/// `rg` and is never a flag, so searching for the footgun text itself, as
/// in `rg -l 'rg -rn '`, is not blocked; in particular a whole command that
/// is one single-quoted span is never flagged.
pub proof fn law_quoted_text_inert(t: Seq<char>, x: Seq<char>)
    ensures
        !is_rg_word((t, true)),
        !is_footgun_word((t, true)),
        !x.contains('\'') ==> !has_footgun(shell_segments(seq!['\''] + x + seq!['\''])),
{
    if !x.contains('\'') {
        law_single_quoted_word(x);
        let segs = shell_segments(seq!['\''] + x + seq!['\'']);
        assert(segs =~= seq![seq![(x, true)]]);
        if has_footgun(segs) {
            let s = choose|s: int| 0 <= s < segs.len() && segment_has_footgun(#[trigger] segs[s]);
            assert(s == 0);
            let (i, j) = choose|i: int, j: int| footgun_at(segs[0], i, j);
            assert(false);
        }
    }
}

/// Law: an `rg` is found at whatever position it takes in its segment:
/// when some segment holds the unquoted word `rg` at any index `i`, and at
/// a later index `j` an unquoted word made of `-` and two or more ASCII
/// letters or digits, one of them `r`, with no unquoted `--` in between
/// (any other word may stand there, long options such as `--hidden`
/// included), the segments have the footgun.
pub proof fn law_footgun_anywhere(segs: Seq<Seq<Word>>, s: int, i: int, j: int)
    requires
        0 <= s < segs.len(),
        0 <= i < j < segs[s].len(),
        segs[s][i] == (seq!['r', 'g'], false),
        !segs[s][j].1,
        segs[s][j].0.len() >= 3,
        segs[s][j].0[0] == '-',
        exists|k: int| 1 <= k < segs[s][j].0.len() && #[trigger] segs[s][j].0[k] == 'r',
        forall|k: int|
            1 <= k < segs[s][j].0.len() ==> {
                let c = #[trigger] segs[s][j].0[k];
                ('0' <= c && c <= '9') || ('a' <= c && c <= 'z') || ('A' <= c && c <= 'Z')
            },
        forall|k: int| i < k < j ==> #[trigger] segs[s][k] != (seq!['-', '-'], false),
    ensures
        has_footgun(segs),
{
    let seg = segs[s];
    let t = seg[j].0;
    let k = choose|k: int| 1 <= k < t.len() && #[trigger] t[k] == 'r';
    assert(t.drop_first()[k - 1] == 'r');
    assert forall|m: int| 1 <= m < t.len() implies is_ascii_alnum(#[trigger] t[m]) by {
        let c = seg[j].0[m];
    }
    assert(is_footgun_word(seg[j]));
    assert forall|m: int| i < m < j implies !is_end_of_options(#[trigger] seg[m]) by {
        assert(seg[m] != (seq!['-', '-'], false));
    }
    assert(footgun_at(seg, i, j));
    assert(segment_has_footgun(segs[s]));
}

/// The unquoted words `rg` and `-rn`, with a blank before each.
pub open spec fn rg_rn() -> Seq<char> {
    seq![' ', 'r', 'g', ' ', '-', 'r', 'n']
}

/// Law: whatever plain words come first in a command (`xargs`, `sudo`,
/// `env A=1`, ...), appending `rg -rn` gives a command that is refused:
/// for any text `a` without quotes, backslashes or separators, the command
/// `a rg -rn` is refused.
pub proof fn law_refused_after_any_words(a: Seq<char>)
    requires
        is_plain(a),
        forall|k: int| 0 <= k < a.len() ==> !is_separator(#[trigger] a[k]),
    ensures
        refuses(a + rg_rn()),
{
    let ws = |c: char| is_white_space(c);
    let e = Seq::<char>::empty();
    let rg = seq!['r', 'g'];
    let rn = seq!['-', 'r', 'n'];
    let t = a + rg_rn();
    let a1 = a.push(' ');
    let a2 = a1 + rg;
    let a3 = a2.push(' ');
    assert(a3 + rn =~= t);
    let p0 = pieces(a, ws);
    lemma_pieces_cut(a, ' ', ws);
    lemma_pieces_extend(a1, rg, ws);
    assert(p0.push(e).update(p0.len() as int, e + rg) =~= p0.push(rg));
    lemma_pieces_cut(a2, ' ', ws);
    lemma_pieces_extend(a3, rn, ws);
    assert(p0.push(rg).push(e).update((p0.len() + 1) as int, e + rn) =~= p0.push(rg).push(rn));
    assert(pieces(t, ws) == p0.push(rg).push(rn));
    lemma_keep_words_push(p0, rg);
    lemma_keep_words_push(p0.push(rg), rn);
    let w = keep_words(p0).push((rg, false)).push((rn, false));
    assert(whitespace_words(t) == w);
    assert forall|k: int| 0 <= k < t.len() implies #[trigger] t[k] != '\'' && t[k] != '"' && t[k] != '\\'
        && !is_separator(t[k]) by {
        if k >= a.len() {
            assert(t[k] == rg_rn()[k - a.len()]);
        }
    }
    lemma_one_piece(t);
    let segs = shell_segments(t);
    assert(segs == seq![w]);
    let n = keep_words(p0).len() as int;
    assert(w[n] == (rg, false));
    assert(w[n + 1] == (rn, false));
    assert(rn[1] == 'r');
    law_footgun_anywhere(segs, 0, n, n + 1);
}

/// Law: only an exact unquoted `--` ends the options: with any other plain
/// word `w` between them (a long option such as `--hidden`, `--no-ignore`,
/// a pattern, a path), the command `rg w -rn` is refused.
pub proof fn law_refused_past_other_words(w: Seq<char>)
    requires
        w.len() > 0,
        w != seq!['-', '-'],
        is_plain(w),
        forall|k: int| 0 <= k < w.len() ==> !is_separator(#[trigger] w[k]) && !is_white_space(w[k]),
    ensures
        refuses(seq!['r', 'g', ' '] + w + seq![' ', '-', 'r', 'n']),
{
    let ws = |c: char| is_white_space(c);
    let e = Seq::<char>::empty();
    let rg = seq!['r', 'g'];
    let rn = seq!['-', 'r', 'n'];
    let t = seq!['r', 'g', ' '] + w + seq![' ', '-', 'r', 'n'];
    let a0 = rg.push(' ');
    let a1 = a0 + w;
    let a2 = a1.push(' ');
    assert(a2 + rn =~= t);
    assert forall|k: int| 0 <= k < rg.len() implies !ws(#[trigger] rg[k]) by {}
    lemma_pieces_whole(rg, ws);
    lemma_pieces_cut(rg, ' ', ws);
    lemma_pieces_extend(a0, w, ws);
    assert(seq![rg].push(e).update(1, e + w) =~= seq![rg, w]);
    lemma_pieces_cut(a1, ' ', ws);
    lemma_pieces_extend(a2, rn, ws);
    assert(seq![rg, w].push(e).update(2, e + rn) =~= seq![rg, w, rn]);
    assert(pieces(t, ws) == seq![rg, w, rn]);
    let ps = seq![rg, w, rn];
    assert(ps.drop_last() =~= seq![rg, w]);
    assert(seq![rg, w].drop_last() =~= seq![rg]);
    assert(seq![rg].drop_last() =~= Seq::<Seq<char>>::empty());
    let words = seq![(rg, false), (w, false), (rn, false)];
    let none = Seq::<Seq<char>>::empty();
    assert(none.push(rg) =~= seq![rg]);
    assert(seq![rg].push(w) =~= seq![rg, w]);
    assert(seq![rg, w].push(rn) =~= ps);
    lemma_keep_words_push(none, rg);
    lemma_keep_words_push(seq![rg], w);
    lemma_keep_words_push(seq![rg, w], rn);
    assert(keep_words(none) == Seq::<Word>::empty());
    assert(keep_words(ps) =~= words);
    assert forall|k: int| 0 <= k < t.len() implies #[trigger] t[k] != '\'' && t[k] != '"' && t[k] != '\\'
        && !is_separator(t[k]) by {
        if k < 3 {
            assert(t[k] == seq!['r', 'g', ' '][k]);
        } else if k < 3 + w.len() {
            assert(t[k] == w[k - 3]);
        } else {
            assert(t[k] == seq![' ', '-', 'r', 'n'][k - 3 - w.len()]);
        }
    }
    lemma_one_piece(t);
    let segs = shell_segments(t);
    assert(segs == seq![words]);
    assert(rn[1] == 'r');
    law_footgun_anywhere(segs, 0, 0, 2);
}

} // verus!
