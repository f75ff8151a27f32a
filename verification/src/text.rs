//! Low-level text helpers shared by the wrapping and rendering modules:
//! the whitespace predicate, string equality, trimming, and joining a
//! sequence of lines with a separator.

use vstd::prelude::*;
use vstd::string::*;

verus! {

/// The whitespace characters recognized by this library (the ASCII ones):
/// space, tab, line feed, carriage return, vertical tab and form feed.
pub open spec fn is_space_char(c: char) -> bool {
    c == ' ' || c == '\t' || c == '\n' || c == '\r' || c == '\u{000b}' || c == '\u{000c}'
}

/// Runtime test for [`is_space_char`].
pub fn exec_is_space(c: char) -> (r: bool)
    ensures
        r == is_space_char(c),
{
    c == ' ' || c == '\t' || c == '\n' || c == '\r' || c == '\u{000b}' || c == '\u{000c}'
}

/// Does the sequence contain a whitespace character anywhere?
pub open spec fn has_space(s: Seq<char>) -> bool {
    exists|i: int| 0 <= i < s.len() && is_space_char(s[i])
}

/// String equality, decided character by character.
pub fn str_eq(a: &str, b: &str) -> (r: bool)
    ensures
        r == (a@ == b@),
{
    let n: usize = a.unicode_len();
    if n != b.unicode_len() {
        return false;
    }
    let mut i: usize = 0;
    while i < n
        invariant
            n == a@.len(),
            n == b@.len(),
            i <= n,
            forall|j: int| 0 <= j < i ==> a@[j] == b@[j],
        decreases n - i,
    {
        if a.get_char(i) != b.get_char(i) {
            return false;
        }
        i = i + 1;
    }
    proof {
        assert(a@ =~= b@);
    }
    true
}

/// The lines joined with the separator between consecutive elements.
pub open spec fn seq_join(list: Seq<Seq<char>>, sep: Seq<char>) -> Seq<char>
    decreases list.len(),
{
    if list.len() == 0 {
        seq![]
    } else if list.len() == 1 {
        list[0]
    } else {
        list[0] + sep + seq_join(list.drop_first(), sep)
    }
}

/// Appending one more element to a join appends a separator and the element.
pub proof fn lemma_seq_join_push(list: Seq<Seq<char>>, sep: Seq<char>, x: Seq<char>)
    ensures
        seq_join(list.push(x), sep) == (if list.len() == 0 {
            x
        } else {
            seq_join(list, sep) + sep + x
        }),
    decreases list.len(),
{
    if list.len() == 0 {
        assert(list.push(x).len() == 1);
        assert(list.push(x)[0] == x);
    } else {
        assert(list.push(x).drop_first() =~= list.drop_first().push(x));
        lemma_seq_join_push(list.drop_first(), sep, x);
        if list.len() == 1 {
            assert(seq_join(list, sep) == list[0]);
            assert(seq_join(list.push(x), sep) == list[0] + sep + x);
        } else {
            assert(seq_join(list.push(x), sep) == list[0] + sep + seq_join(
                list.drop_first().push(x),
                sep,
            ));
            assert(seq_join(list.drop_first().push(x), sep) == seq_join(list.drop_first(), sep)
                + sep + x);
            assert(list[0] + sep + (seq_join(list.drop_first(), sep) + sep + x) =~= (list[0] + sep
                + seq_join(list.drop_first(), sep)) + sep + x);
        }
    }
}

/// Joins the given lines into one string, with the separator between
/// consecutive lines.
pub fn join_lines(lines: &Vec<String>, sep: &str) -> (r: String)
    ensures
        r@ == seq_join(lines.deep_view(), sep@),
{
    let ghost dv = lines.deep_view();
    let mut r = String::new();
    let mut i: usize = 0;
    while i < lines.len()
        invariant
            i <= lines.len(),
            dv == lines.deep_view(),
            dv.len() == lines.len(),
            forall|j: int| 0 <= j < lines.len() ==> dv[j] == lines[j]@,
            r@ == seq_join(dv.take(i as int), sep@),
        decreases lines.len() - i,
    {
        proof {
            assert(dv.take(i + 1) =~= dv.take(i as int).push(dv[i as int]));
            lemma_seq_join_push(dv.take(i as int), sep@, dv[i as int]);
        }
        if i > 0 {
            r.append(sep);
        }
        r.append(lines[i].as_str());
        proof {
            if i == 0 {
                assert(r@ =~= dv[0]);
            }
        }
        i = i + 1;
    }
    proof {
        assert(dv.take(lines.len() as int) =~= dv);
    }
    r
}

/// The sequence with every leading whitespace character removed.
pub open spec fn trim_front(s: Seq<char>) -> Seq<char>
    decreases s.len(),
{
    if s.len() == 0 {
        s
    } else if is_space_char(s[0]) {
        trim_front(s.drop_first())
    } else {
        s
    }
}

/// The sequence with every trailing whitespace character removed.
pub open spec fn trim_back(s: Seq<char>) -> Seq<char>
    decreases s.len(),
{
    if s.len() == 0 {
        s
    } else if is_space_char(s.last()) {
        trim_back(s.drop_last())
    } else {
        s
    }
}

/// The sequence with surrounding whitespace removed at both ends.
pub open spec fn trim_spaces(s: Seq<char>) -> Seq<char> {
    trim_back(trim_front(s))
}

/// The sequence with one leading quote character removed, if there is one.
pub open spec fn strip_quote_front(s: Seq<char>) -> Seq<char> {
    if s.len() > 0 && s[0] == '"' {
        s.drop_first()
    } else {
        s
    }
}

/// The sequence with one trailing quote character removed, if there is one.
pub open spec fn strip_quote_back(s: Seq<char>) -> Seq<char> {
    if s.len() > 0 && s.last() == '"' {
        s.drop_last()
    } else {
        s
    }
}

/// One layer of quote characters removed: at most one quote from each end.
pub open spec fn strip_quote_layer(s: Seq<char>) -> Seq<char> {
    strip_quote_back(strip_quote_front(s))
}

} // verus!
