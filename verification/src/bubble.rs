//! Speech-bubble rendering: wrapped lines are framed between an underscore
//! top border and a hyphen bottom border, each body line padded to the
//! width of the longest wrapped line.

use vstd::prelude::*;
use vstd::string::*;

use crate::text::seq_join;
use crate::wrap::{split_words, wrap_words, wrapped_lines};
use crate::text::join_lines;

verus! {

/// The fixed column budget a bubble wraps its text at.
pub open spec fn bubble_wrap_width() -> int {
    60
}

/// The length of the longest line, or 0 if there are none.
pub open spec fn max_line_width(lines: Seq<Seq<char>>) -> nat
    decreases lines.len(),
{
    if lines.len() == 0 {
        0
    } else {
        let rest = max_line_width(lines.drop_last());
        if lines.last().len() >= rest {
            lines.last().len()
        } else {
            rest
        }
    }
}

/// Every line is at most the maximum width.
pub proof fn lemma_max_line_width(lines: Seq<Seq<char>>)
    ensures
        forall|i: int| 0 <= i < lines.len() ==> lines[i].len() <= max_line_width(lines),
    decreases lines.len(),
{
    if lines.len() > 0 {
        lemma_max_line_width(lines.drop_last());
        assert forall|i: int| 0 <= i < lines.len() implies lines[i].len() <= max_line_width(
            lines,
        ) by {
            if i < lines.len() - 1 {
                assert(lines[i] == lines.drop_last()[i]);
            }
        }
    }
}

/// The character `c` repeated `n` times.
pub open spec fn repeat_char(c: char, n: nat) -> Seq<char> {
    Seq::new(n, |i: int| c)
}

/// The top border: a space, then `interior + 2` underscores.
pub open spec fn top_border(interior: nat) -> Seq<char> {
    seq![' '] + repeat_char('_', (interior + 2) as nat)
}

/// The bottom border: a space, then `interior + 2` hyphens.
pub open spec fn bottom_border(interior: nat) -> Seq<char> {
    seq![' '] + repeat_char('-', (interior + 2) as nat)
}

/// A body line: `/ `, the line padded on the right with spaces to the
/// interior width, then ` \`.
pub open spec fn body_line(line: Seq<char>, interior: nat) -> Seq<char> {
    seq!['/', ' '] + line + repeat_char(' ', (interior - line.len()) as nat) + seq![' ', '\\']
}

/// All the lines of a bubble around the given wrapped lines: the top
/// border, one body line per wrapped line, and the bottom border, all
/// sized by the longest wrapped line.
pub open spec fn bubble_lines(lines: Seq<Seq<char>>) -> Seq<Seq<char>> {
    let interior = max_line_width(lines);
    seq![top_border(interior)] + lines.map_values(|l: Seq<char>| body_line(l, interior)) + seq![
        bottom_border(interior),
    ]
}

/// The rendered bubble for a text: the text is wrapped at the bubble's
/// fixed width and the bubble lines are joined with newlines.
pub open spec fn render_spec(text: Seq<char>) -> Seq<char> {
    seq_join(bubble_lines(wrapped_lines(text, bubble_wrap_width())), seq!['\n'])
}

/// A bubble has exactly two lines more than its text, and its borders are
/// three characters wider than the interior.
pub proof fn lemma_bubble_shape(lines: Seq<Seq<char>>)
    ensures
        bubble_lines(lines).len() == lines.len() + 2,
        bubble_lines(lines)[0] == top_border(max_line_width(lines)),
        bubble_lines(lines).last() == bottom_border(max_line_width(lines)),
        bubble_lines(lines)[0].len() == max_line_width(lines) + 3,
        bubble_lines(lines).last().len() == max_line_width(lines) + 3,
{
    let interior = max_line_width(lines);
    let bl = bubble_lines(lines);
    assert(bl[0] == top_border(interior));
    assert(bl.last() == bottom_border(interior));
}

/// Every body line of a bubble is exactly four characters wider than the
/// interior: the line, its padding, and the two-character frame each side.
pub proof fn lemma_bubble_body_width(lines: Seq<Seq<char>>)
    ensures
        forall|j: int|
            1 <= j <= lines.len() ==> #[trigger] bubble_lines(lines)[j].len() == max_line_width(
                lines,
            ) + 4,
{
    let interior = max_line_width(lines);
    lemma_max_line_width(lines);
    assert forall|j: int|
        1 <= j <= lines.len() implies #[trigger] bubble_lines(lines)[j].len() == interior + 4 by {
        assert(bubble_lines(lines)[j] == body_line(lines[j - 1], interior));
        assert(lines[j - 1].len() <= interior);
    }
}

/// Appends `count` copies of the one-character string `piece` to `out`.
fn append_repeated(out: &mut String, piece: &str, count: usize)
    requires
        piece@.len() == 1,
    ensures
        final(out)@ == old(out)@ + repeat_char(piece@[0], count as nat),
{
    let mut i: usize = 0;
    while i < count
        invariant
            piece@.len() == 1,
            i <= count,
            out@ == old(out)@ + repeat_char(piece@[0], i as nat),
        decreases count - i,
    {
        out.append(piece);
        proof {
            assert(old(out)@ + repeat_char(piece@[0], i as nat) + piece@ =~= old(out)@
                + repeat_char(piece@[0], (i + 1) as nat));
        }
        i = i + 1;
    }
}

/// Renders the text inside a speech bubble: the text is wrapped at 60
/// columns and framed between borders sized to the longest wrapped line.
pub fn format_bubble(text: &str) -> (r: String)
    ensures
        r@ == render_spec(text@),
{
    let words = split_words(text);
    let lines = wrap_words(&words, 60);
    let ghost dv = lines.deep_view();

    // The interior width: the longest wrapped line.
    let mut interior: usize = 0;
    let mut i: usize = 0;
    proof {
        assert(dv.take(0) =~= Seq::<Seq<char>>::empty());
    }
    while i < lines.len()
        invariant
            dv == lines.deep_view(),
            dv.len() == lines.len(),
            forall|j: int| 0 <= j < lines.len() ==> dv[j] == lines[j]@,
            i <= lines.len(),
            interior == max_line_width(dv.take(i as int)),
        decreases lines.len() - i,
    {
        let len: usize = lines[i].as_str().unicode_len();
        proof {
            assert(dv.take(i + 1).drop_last() =~= dv.take(i as int));
            assert(dv.take(i + 1).last() == dv[i as int]);
        }
        if len > interior {
            interior = len;
        }
        i = i + 1;
    }
    proof {
        assert(dv.take(lines.len() as int) =~= dv);
        lemma_max_line_width(dv);
    }

    let mut rows: Vec<String> = Vec::new();
    proof {
        reveal_strlit(" ");
        reveal_strlit("_");
        reveal_strlit("-");
        reveal_strlit(" __");
        reveal_strlit(" --");
        reveal_strlit("/ ");
        reveal_strlit(" \\");
    }

    // Top border.
    let mut top = String::from_str(" __");
    append_repeated(&mut top, "_", interior);
    proof {
        assert(" __"@ + repeat_char('_', interior as nat) =~= top_border(interior as nat));
    }
    let ghost pre0 = rows.deep_view();
    rows.push(top);
    proof {
        assert(rows.deep_view() =~= pre0.push(top_border(interior as nat)));
    }

    // Body lines.
    let mut i: usize = 0;
    while i < lines.len()
        invariant
            dv == lines.deep_view(),
            dv.len() == lines.len(),
            forall|j: int| 0 <= j < lines.len() ==> dv[j] == lines[j]@,
            i <= lines.len(),
            interior as nat == max_line_width(dv),
            forall|j: int| 0 <= j < dv.len() ==> dv[j].len() <= interior,
            rows.deep_view() =~= seq![top_border(interior as nat)] + dv.take(i as int).map_values(
                |l: Seq<char>| body_line(l, interior as nat),
            ),
        decreases lines.len() - i,
    {
        proof {
            reveal_strlit(" ");
            reveal_strlit("/ ");
            reveal_strlit(" \\");
        }
        let len: usize = lines[i].as_str().unicode_len();
        proof {
            assert(dv[i as int] == lines[i as int]@);
            assert(len <= interior);
        }
        let mut row = String::from_str("/ ");
        row.append(lines[i].as_str());
        append_repeated(&mut row, " ", interior - len);
        row.append(" \\");
        proof {
            assert(row@ =~= body_line(dv[i as int], interior as nat));
        }
        let ghost pre = rows.deep_view();
        rows.push(row);
        proof {
            assert(rows.deep_view() =~= pre.push(body_line(dv[i as int], interior as nat)));
            assert(dv.take(i + 1) =~= dv.take(i as int).push(dv[i as int]));
            assert(dv.take(i + 1).map_values(|l: Seq<char>| body_line(l, interior as nat)) =~= dv.take(
                i as int,
            ).map_values(|l: Seq<char>| body_line(l, interior as nat)).push(
                body_line(dv[i as int], interior as nat),
            ));
            assert(rows.deep_view() =~= seq![top_border(interior as nat)] + dv.take(
                i + 1,
            ).map_values(|l: Seq<char>| body_line(l, interior as nat)));
        }
        i = i + 1;
    }

    // Bottom border.
    let mut bottom = String::from_str(" --");
    append_repeated(&mut bottom, "-", interior);
    proof {
        assert(" --"@ + repeat_char('-', interior as nat) =~= bottom_border(interior as nat));
    }
    let ghost pre1 = rows.deep_view();
    rows.push(bottom);
    proof {
        assert(rows.deep_view() =~= pre1.push(bottom_border(interior as nat)));
        assert(dv.take(dv.len() as int) =~= dv);
        assert(rows.deep_view() =~= bubble_lines(dv));
    }

    let r = join_lines(&rows, "\n");
    proof {
        reveal_strlit("\n");
        assert("\n"@ =~= seq!['\n']);
    }
    r
}

} // verus!
