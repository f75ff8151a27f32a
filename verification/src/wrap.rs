//! Greedy word wrapping: a string is split into whitespace-delimited words,
//! and lines are built greedily so that a line never exceeds the column
//! budget — except that a single word longer than the budget is kept whole
//! on a line of its own.

use vstd::prelude::*;
use vstd::string::*;

use crate::text::{
    exec_is_space, has_space, is_space_char, join_lines, seq_join, lemma_seq_join_push,
};

verus! {

/// Index of the first whitespace character, or the length if there is none.
pub open spec fn first_space_index(s: Seq<char>) -> nat
    decreases s.len(),
{
    if s.len() == 0 {
        0
    } else if is_space_char(s[0]) {
        0
    } else {
        1 + first_space_index(s.drop_first())
    }
}

/// `first_space_index` is a position in (or one past) the sequence, every
/// character before it is non-whitespace, and the character at it (if any)
/// is whitespace.
pub proof fn lemma_first_space_index(s: Seq<char>)
    ensures
        first_space_index(s) <= s.len(),
        forall|j: int| 0 <= j < first_space_index(s) ==> !is_space_char(s[j]),
        first_space_index(s) < s.len() ==> is_space_char(s[first_space_index(s) as int]),
    decreases s.len(),
{
    if s.len() == 0 || is_space_char(s[0]) {
    } else {
        lemma_first_space_index(s.drop_first());
        let k = first_space_index(s) as int;
        assert forall|j: int| 0 <= j < k implies !is_space_char(s[j]) by {
            if j >= 1 {
                assert(s[j] == s.drop_first()[j - 1]);
            }
        }
        if k < s.len() {
            assert(s[k] == s.drop_first()[k - 1]);
        }
    }
}

/// If the characters at `0..k` are non-whitespace and `k` is the length or
/// a whitespace position, then `k` is the first whitespace index.
pub proof fn lemma_first_space_index_from_scan(s: Seq<char>, k: int)
    requires
        0 <= k <= s.len(),
        forall|j: int| 0 <= j < k ==> !is_space_char(s[j]),
        k == s.len() || is_space_char(s[k]),
    ensures
        first_space_index(s) == k,
    decreases k,
{
    if k == 0 {
    } else {
        assert(!is_space_char(s[0]));
        assert forall|j: int| 0 <= j < k - 1 implies !is_space_char(s.drop_first()[j]) by {
            assert(s.drop_first()[j] == s[j + 1]);
        }
        if k < s.len() {
            assert(s.drop_first()[k - 1] == s[k]);
        }
        lemma_first_space_index_from_scan(s.drop_first(), k - 1);
    }
}

/// The whitespace-delimited words of the text, in order: the maximal runs
/// of non-whitespace characters.
pub open spec fn words_of(s: Seq<char>) -> Seq<Seq<char>>
    decreases s.len(),
    via words_of_decreases
{
    if s.len() == 0 {
        seq![]
    } else if is_space_char(s[0]) {
        words_of(s.drop_first())
    } else {
        seq![s.take(first_space_index(s) as int)] + words_of(s.skip(first_space_index(s) as int))
    }
}

#[via_fn]
proof fn words_of_decreases(s: Seq<char>) {
    if s.len() > 0 && !is_space_char(s[0]) {
        lemma_first_space_index(s);
        assert(first_space_index(s) >= 1);
        assert(s.skip(first_space_index(s) as int).len() < s.len());
    }
}

/// A single word of a split is non-empty and contains no whitespace.
proof fn lemma_words_of_wf_at(s: Seq<char>, i: int)
    requires
        0 <= i < words_of(s).len(),
    ensures
        words_of(s)[i].len() >= 1,
        !has_space(words_of(s)[i]),
    decreases s.len(),
{
    if s.len() == 0 {
    } else if is_space_char(s[0]) {
        lemma_words_of_wf_at(s.drop_first(), i);
    } else {
        lemma_first_space_index(s);
        let k = first_space_index(s) as int;
        if i == 0 {
            let w0 = s.take(k);
            assert(words_of(s)[0] == w0);
            assert(w0.len() >= 1);
            assert(!has_space(w0)) by {
                assert forall|j: int| 0 <= j < w0.len() implies !is_space_char(w0[j]) by {
                    assert(w0[j] == s[j]);
                }
            }
        } else {
            assert(words_of(s)[i] == words_of(s.skip(k))[i - 1]);
            lemma_words_of_wf_at(s.skip(k), i - 1);
        }
    }
}

/// Every word is non-empty and contains no whitespace.
pub proof fn lemma_words_of_wf(s: Seq<char>)
    ensures
        forall|i: int|
            0 <= i < words_of(s).len() ==> (words_of(s)[i].len() >= 1 && !has_space(
                words_of(s)[i],
            )),
{
    assert forall|i: int|
        0 <= i < words_of(s).len() implies (words_of(s)[i].len() >= 1 && !has_space(
        words_of(s)[i],
    )) by {
        lemma_words_of_wf_at(s, i);
    }
}

/// How many further words fit, greedily, on a line that already holds
/// `line_len` characters: each appended word costs one separating space
/// plus its own length, and the line must stay within `budget`.
pub open spec fn extend_count(line_len: int, rest: Seq<Seq<char>>, budget: int) -> nat
    decreases rest.len(),
{
    if rest.len() == 0 {
        0
    } else if line_len + 1 + rest[0].len() <= budget {
        1 + extend_count(line_len + 1 + rest[0].len(), rest.drop_first(), budget)
    } else {
        0
    }
}

/// At most all remaining words fit.
pub proof fn lemma_extend_count_le(line_len: int, rest: Seq<Seq<char>>, budget: int)
    ensures
        extend_count(line_len, rest, budget) <= rest.len(),
    decreases rest.len(),
{
    if rest.len() > 0 && line_len + 1 + rest[0].len() <= budget {
        lemma_extend_count_le(line_len + 1 + rest[0].len(), rest.drop_first(), budget);
    }
}

/// How many words the first output line takes: the first word always, then
/// as many as fit greedily.
pub open spec fn first_line_count(ws: Seq<Seq<char>>, budget: int) -> nat {
    1 + extend_count(ws[0].len() as int, ws.drop_first(), budget)
}

/// Words joined with single spaces: the whitespace-normalized text.
pub open spec fn normalize(ws: Seq<Seq<char>>) -> Seq<char> {
    seq_join(ws, seq![' '])
}

/// The greedy wrapping of the given words at the given column budget: the
/// first line takes `first_line_count` words, and the rest are wrapped the
/// same way.
pub open spec fn wrap_lines(ws: Seq<Seq<char>>, budget: int) -> Seq<Seq<char>>
    decreases ws.len(),
    via wrap_lines_decreases
{
    if ws.len() == 0 {
        seq![]
    } else {
        let k = first_line_count(ws, budget) as int;
        seq![normalize(ws.take(k))] + wrap_lines(ws.skip(k), budget)
    }
}

#[via_fn]
proof fn wrap_lines_decreases(ws: Seq<Seq<char>>, budget: int) {
    if ws.len() > 0 {
        lemma_extend_count_le(ws[0].len() as int, ws.drop_first(), budget);
        assert(first_line_count(ws, budget) >= 1);
        assert(ws.skip(first_line_count(ws, budget) as int).len() < ws.len());
    }
}

/// The wrapped lines of a text: its words, wrapped at the budget.
pub open spec fn wrapped_lines(text: Seq<char>, budget: int) -> Seq<Seq<char>> {
    wrap_lines(words_of(text), budget)
}

/// The wrapped text as one string: the wrapped lines joined with newlines.
pub open spec fn wrap_spec(text: Seq<char>, budget: int) -> Seq<char> {
    seq_join(wrapped_lines(text, budget), seq!['\n'])
}

/// The number of characters a run of words adds to a line: one separating
/// space plus the word's own length, for each word.
pub open spec fn joined_cost(parts: Seq<Seq<char>>) -> nat
    decreases parts.len(),
{
    if parts.len() == 0 {
        0
    } else {
        1 + parts[0].len() + joined_cost(parts.drop_first())
    }
}

/// The normalized form of a non-empty word sequence is as long as its
/// first word plus the cost of the words after it.
pub proof fn lemma_normalize_len(ws: Seq<Seq<char>>)
    requires
        ws.len() >= 1,
    ensures
        normalize(ws).len() == ws[0].len() + joined_cost(ws.drop_first()),
    decreases ws.len(),
{
    if ws.len() == 1 {
        assert(ws.drop_first().len() == 0);
    } else {
        lemma_normalize_len(ws.drop_first());
    }
}

/// Whatever fits greedily really fits: if at least one more word was
/// taken, the line stays within the budget.
pub proof fn lemma_extend_count_fits(line_len: int, rest: Seq<Seq<char>>, budget: int)
    requires
        extend_count(line_len, rest, budget) >= 1,
    ensures
        line_len + joined_cost(rest.take(extend_count(line_len, rest, budget) as int)) <= budget,
    decreases rest.len(),
{
    lemma_extend_count_le(line_len, rest, budget);
    let e = extend_count(line_len, rest, budget) as int;
    let line2 = line_len + 1 + rest[0].len();
    let e2 = extend_count(line2, rest.drop_first(), budget) as int;
    assert(rest.take(e).drop_first() =~= rest.drop_first().take(e - 1));
    assert(rest.take(e)[0] == rest[0]);
    assert(joined_cost(rest.take(e)) == 1 + rest[0].len() + joined_cost(
        rest.drop_first().take(e - 1),
    ));
    if e2 == 0 {
        assert(rest.drop_first().take(0).len() == 0);
        assert(joined_cost(rest.drop_first().take(0)) == 0);
    } else {
        lemma_extend_count_fits(line2, rest.drop_first(), budget);
    }
}

/// When everything fits in the budget, the greedy extension takes all the
/// remaining words.
pub proof fn lemma_extend_count_full(line_len: int, rest: Seq<Seq<char>>, budget: int)
    requires
        line_len + joined_cost(rest) <= budget,
    ensures
        extend_count(line_len, rest, budget) == rest.len(),
    decreases rest.len(),
{
    if rest.len() > 0 {
        lemma_extend_count_full(line_len + 1 + rest[0].len(), rest.drop_first(), budget);
    }
}

/// Normalizing the words of a text never makes it longer: collapsing
/// whitespace runs to single separators only removes characters. When the
/// text begins with whitespace, at least that character is removed.
pub proof fn lemma_normalize_le_len(s: Seq<char>)
    ensures
        words_of(s).len() >= 1 ==> normalize(words_of(s)).len() <= s.len(),
        words_of(s).len() >= 1 && s.len() >= 1 && is_space_char(s[0]) ==> normalize(
            words_of(s),
        ).len() <= s.len() - 1,
    decreases s.len(),
{
    if s.len() == 0 {
    } else if is_space_char(s[0]) {
        lemma_normalize_le_len(s.drop_first());
    } else {
        lemma_first_space_index(s);
        let k = first_space_index(s) as int;
        let ws = words_of(s);
        let rest = words_of(s.skip(k));
        lemma_normalize_le_len(s.skip(k));
        assert(ws == seq![s.take(k)] + rest);
        assert(ws[0] == s.take(k));
        assert(ws.drop_first() =~= rest);
        if rest.len() == 0 {
            assert(normalize(ws) == ws[0]);
        } else {
            lemma_normalize_len(ws);
            lemma_normalize_len(rest);
            assert(joined_cost(rest) == 1 + normalize(rest).len());
            // The rest of the words came after a whitespace character.
            assert(k < s.len());
            assert(s.skip(k).len() >= 1 && is_space_char(s.skip(k)[0]));
            assert(normalize(rest).len() <= s.len() - k - 1);
        }
    }
}

/// Every line a text wraps to fits in the budget, unless it is a single
/// word longer than the budget, kept whole on its own line: such a line
/// contains no whitespace.
pub proof fn lemma_wrap_lines_width(ws: Seq<Seq<char>>, budget: int)
    requires
        forall|i: int| 0 <= i < ws.len() ==> (ws[i].len() >= 1 && !has_space(ws[i])),
    ensures
        forall|i: int|
            0 <= i < wrap_lines(ws, budget).len() ==> (#[trigger] wrap_lines(ws, budget)[i].len()
                <= budget || !has_space(wrap_lines(ws, budget)[i])),
    decreases ws.len(),
{
    if ws.len() > 0 {
        let k = first_line_count(ws, budget) as int;
        let e = k - 1;
        let line = normalize(ws.take(k));
        lemma_extend_count_le(ws[0].len() as int, ws.drop_first(), budget);
        if e == 0 {
            assert(line == ws.take(1)[0]);
            assert(!has_space(line));
        } else {
            lemma_extend_count_fits(ws[0].len() as int, ws.drop_first(), budget);
            lemma_normalize_len(ws.take(k));
            assert(ws.take(k)[0] == ws[0]);
            assert(ws.take(k).drop_first() =~= ws.drop_first().take(e));
            assert(line.len() <= budget);
        }
        assert forall|i: int| 0 <= i < ws.skip(k).len() implies (ws.skip(k)[i].len() >= 1
            && !has_space(ws.skip(k)[i])) by {
            assert(ws.skip(k)[i] == ws[k + i]);
        }
        lemma_wrap_lines_width(ws.skip(k), budget);
        assert forall|i: int|
            0 <= i < wrap_lines(ws, budget).len() implies (#[trigger] wrap_lines(
            ws,
            budget,
        )[i].len() <= budget || !has_space(wrap_lines(ws, budget)[i])) by {
            if i >= 1 {
                assert(wrap_lines(ws, budget)[i] == wrap_lines(ws.skip(k), budget)[i - 1]);
            }
        }
    }
}

/// Every line of wrapped text fits in a positive budget, except that a
/// single word longer than the budget stands unsplit on a line of its own
/// (a line without whitespace).
pub proof fn lemma_wrap_width(text: Seq<char>, max_width: int)
    requires
        max_width >= 1,
    ensures
        forall|i: int|
            0 <= i < wrapped_lines(text, max_width).len() ==> (#[trigger] wrapped_lines(
                text,
                max_width,
            )[i].len() <= max_width || !has_space(wrapped_lines(text, max_width)[i])),
{
    lemma_words_of_wf(text);
    lemma_wrap_lines_width(words_of(text), max_width);
}

/// Wrapping already-short text changes nothing but the whitespace: when
/// the text itself fits in the budget and has at least one word, wrapping
/// yields exactly one line, the whitespace-normalized text.
pub proof fn lemma_wrap_short(text: Seq<char>, max_width: int)
    requires
        max_width >= 1,
        text.len() <= max_width,
        words_of(text).len() >= 1,
    ensures
        wrapped_lines(text, max_width) == seq![normalize(words_of(text))],
{
    let ws = words_of(text);
    lemma_normalize_le_len(text);
    lemma_normalize_len(ws);
    lemma_extend_count_full(ws[0].len() as int, ws.drop_first(), max_width);
    let k = first_line_count(ws, max_width) as int;
    assert(k == ws.len());
    assert(ws.take(k) =~= ws);
    assert(ws.skip(k) =~= Seq::<Seq<char>>::empty());
    assert(wrap_lines(Seq::<Seq<char>>::empty(), max_width) =~= Seq::<Seq<char>>::empty());
    assert(wrap_lines(ws, max_width) == seq![normalize(ws.take(k))] + wrap_lines(
        ws.skip(k),
        max_width,
    ));
    assert(seq![normalize(ws)] + Seq::<Seq<char>>::empty() =~= seq![normalize(ws)]);
}

/// Splits the text into its whitespace-delimited words.
pub fn split_words(text: &str) -> (words: Vec<String>)
    ensures
        words.deep_view() == words_of(text@),
{
    let n: usize = text.unicode_len();
    let mut words: Vec<String> = Vec::new();
    let mut i: usize = 0;
    proof {
        assert(words.deep_view() =~= Seq::<Seq<char>>::empty());
        assert(text@.skip(0) =~= text@);
    }
    while i < n
        invariant
            n == text@.len(),
            i <= n,
            words.deep_view() + words_of(text@.skip(i as int)) == words_of(text@),
        decreases n - i,
    {
        let c = text.get_char(i);
        if exec_is_space(c) {
            proof {
                assert(text@.skip(i as int).drop_first() =~= text@.skip(i + 1));
            }
            i = i + 1;
        } else {
            let start = i;
            let mut j: usize = i + 1;
            while j < n
                invariant
                    n == text@.len(),
                    start < j <= n,
                    forall|m: int| start <= m < j ==> !is_space_char(text@[m]),
                ensures
                    start < j <= n,
                    forall|m: int| start <= m < j ==> !is_space_char(text@[m]),
                    j == n || is_space_char(text@[j as int]),
                decreases n - j,
            {
                if exec_is_space(text.get_char(j)) {
                    break ;
                }
                j = j + 1;
            }
            let word = String::from_str(text.substring_char(start, j));
            proof {
                let t = text@.skip(start as int);
                assert forall|m: int| 0 <= m < j - start implies !is_space_char(t[m]) by {
                    assert(t[m] == text@[start + m]);
                }
                if j < n {
                    assert(t[j - start] == text@[j as int]);
                }
                lemma_first_space_index_from_scan(t, j - start);
                assert(t.take(j - start) =~= text@.subrange(start as int, j as int));
                assert(t.skip(j - start) =~= text@.skip(j as int));
                assert(words_of(t) == seq![text@.subrange(start as int, j as int)] + words_of(
                    text@.skip(j as int),
                ));
            }
            let ghost pre = words.deep_view();
            words.push(word);
            proof {
                assert(words.deep_view() =~= pre.push(text@.subrange(start as int, j as int)));
                assert(pre.push(text@.subrange(start as int, j as int)) + words_of(
                    text@.skip(j as int),
                ) =~= pre + words_of(text@.skip(start as int)));
            }
            i = j;
        }
    }
    proof {
        assert(text@.skip(n as int) =~= Seq::<char>::empty());
        assert(words.deep_view() + Seq::<Seq<char>>::empty() =~= words.deep_view());
    }
    words
}

/// Wraps the given words greedily at the given column budget.
pub fn wrap_words(words: &Vec<String>, max_width: usize) -> (lines: Vec<String>)
    ensures
        lines.deep_view() == wrap_lines(words.deep_view(), max_width as int),
{
    let ghost ws = words.deep_view();
    let ghost w = max_width as int;
    let mut lines: Vec<String> = Vec::new();
    if words.len() == 0 {
        proof {
            assert(lines.deep_view() =~= wrap_lines(ws, w));
        }
        return lines;
    }
    let mut cur: String = words[0].clone();
    let mut cur_len: usize = cur.as_str().unicode_len();
    let ghost mut start: int = 0;
    let mut i: usize = 1;
    proof {
        assert(ws.skip(0) =~= ws);
        assert(ws.skip(0).drop_first() =~= ws.skip(1));
        assert(cur@ =~= normalize(ws.subrange(0, 1))) by {
            assert(ws.subrange(0, 1).len() == 1);
            assert(ws.subrange(0, 1)[0] == ws[0]);
        }
        assert(lines.deep_view() =~= Seq::<Seq<char>>::empty());
        assert(Seq::<Seq<char>>::empty() + wrap_lines(ws, w) =~= wrap_lines(ws, w));
    }
    while i < words.len()
        invariant
            ws == words.deep_view(),
            w == max_width as int,
            ws.len() == words.len(),
            forall|j: int| 0 <= j < ws.len() ==> ws[j] == words[j]@,
            0 <= start < i <= words.len(),
            cur@ == normalize(ws.subrange(start, i as int)),
            cur_len == cur@.len(),
            lines.deep_view() + wrap_lines(ws.skip(start), w) == wrap_lines(ws, w),
            first_line_count(ws.skip(start), w) == (i - start) + extend_count(
                cur@.len() as int,
                ws.skip(i as int),
                w,
            ),
        decreases words.len() - i,
    {
        let wlen: usize = words[i].as_str().unicode_len();
        proof {
            assert(ws.skip(i as int)[0] == ws[i as int]);
            assert(ws.skip(i as int).drop_first() =~= ws.skip(i + 1));
        }
        let fits = cur_len < max_width && wlen <= max_width - cur_len - 1;
        proof {
            assert(fits == (cur_len + 1 + wlen <= max_width));
        }
        if fits {
            proof {
                reveal_strlit(" ");
                assert(" "@ =~= seq![' ']);
            }
            cur.append(" ");
            cur.append(words[i].as_str());
            proof {
                assert(ws.subrange(start, i + 1) =~= ws.subrange(start, i as int).push(
                    ws[i as int],
                ));
                lemma_seq_join_push(ws.subrange(start, i as int), seq![' '], ws[i as int]);
            }
            cur_len = cur_len + 1 + wlen;
        } else {
            let ghost k = i - start;
            proof {
                assert(extend_count(cur@.len() as int, ws.skip(i as int), w) == 0);
                assert(first_line_count(ws.skip(start), w) == k);
                assert(ws.skip(start).take(k) =~= ws.subrange(start, i as int));
                assert(ws.skip(start).skip(k) =~= ws.skip(i as int));
                assert(wrap_lines(ws.skip(start), w) == seq![cur@] + wrap_lines(
                    ws.skip(i as int),
                    w,
                ));
            }
            let ghost pre = lines.deep_view();
            lines.push(cur);
            proof {
                assert(lines.deep_view() =~= pre.push(normalize(ws.subrange(start, i as int))));
                assert(pre.push(normalize(ws.subrange(start, i as int))) + wrap_lines(
                    ws.skip(i as int),
                    w,
                ) =~= pre + wrap_lines(ws.skip(start), w));
            }
            cur = words[i].clone();
            cur_len = wlen;
            proof {
                start = i as int;
                assert(cur@ =~= normalize(ws.subrange(start, i + 1))) by {
                    assert(ws.subrange(start, i + 1).len() == 1);
                    assert(ws.subrange(start, i + 1)[0] == ws[i as int]);
                }
                assert(ws.skip(start).drop_first() =~= ws.skip(i + 1));
            }
        }
        i = i + 1;
    }
    proof {
        assert(ws.skip(i as int) =~= Seq::<Seq<char>>::empty());
        assert(extend_count(cur@.len() as int, Seq::<Seq<char>>::empty(), w) == 0);
        assert(first_line_count(ws.skip(start), w) == i - start);
        assert(ws.skip(start).take(i - start) =~= ws.subrange(start, i as int));
        assert(ws.skip(start).skip(i - start) =~= Seq::<Seq<char>>::empty());
        assert(wrap_lines(ws.skip(start), w) == seq![cur@] + wrap_lines(
            Seq::<Seq<char>>::empty(),
            w,
        ));
        assert(wrap_lines(ws.skip(start), w) =~= seq![cur@]);
    }
    let ghost pre = lines.deep_view();
    lines.push(cur);
    proof {
        assert(lines.deep_view() =~= pre.push(normalize(ws.subrange(start, i as int))));
        assert(pre.push(normalize(ws.subrange(start, i as int))) =~= pre + wrap_lines(
            ws.skip(start),
            w,
        ));
    }
    lines
}

/// Wraps the text at the given column budget and joins the lines with
/// newlines, as the wrapped form of the text.
pub fn wrap_text(text: &str, max_width: usize) -> (r: String)
    ensures
        r@ == wrap_spec(text@, max_width as int),
{
    let words = split_words(text);
    let lines = wrap_words(&words, max_width);
    let r = join_lines(&lines, "\n");
    proof {
        reveal_strlit("\n");
        assert("\n"@ =~= seq!['\n']);
    }
    r
}

} // verus!

