//! Preparing a reply message for display, and building the pieces of the
//! request that fetches it: the message is trimmed of surrounding
//! whitespace and of one layer of quote characters before it is wrapped,
//! and the prompt and endpoint URL are assembled from their fixed parts.

use vstd::prelude::*;
use vstd::string::*;

use crate::text::{
    exec_is_space, is_space_char, strip_quote_front, strip_quote_layer, trim_back, trim_front,
    trim_spaces,
};

verus! {

/// The cleaned form of a reply: surrounding whitespace removed, then one
/// layer of quote characters (at most one quote from each end), then
/// whitespace again.
pub open spec fn clean_spec(s: Seq<char>) -> Seq<char> {
    trim_spaces(strip_quote_layer(trim_spaces(s)))
}

/// Narrows the bounds `lo..hi` within `s` by one whitespace-trimming
/// pass: the returned range holds the trimmed form of `s[lo..hi]`.
fn trim_bounds(s: &str, lo: usize, hi: usize) -> (r: (usize, usize))
    requires
        lo <= hi <= s@.len(),
    ensures
        lo <= r.0 <= r.1 <= hi,
        s@.subrange(r.0 as int, r.1 as int) == trim_spaces(s@.subrange(lo as int, hi as int)),
{
    let ghost orig = s@.subrange(lo as int, hi as int);
    let mut a: usize = lo;
    let mut b: usize = hi;
    while a < b
        invariant
            lo <= a <= b <= hi <= s@.len(),
            b == hi,
            trim_front(s@.subrange(a as int, hi as int)) == trim_front(orig),
        ensures
            lo <= a <= b <= hi,
            b == hi,
            trim_front(s@.subrange(a as int, hi as int)) == trim_front(orig),
            a == b || !is_space_char(s@[a as int]),
        decreases b - a,
    {
        let c = s.get_char(a);
        if !exec_is_space(c) {
            break ;
        }
        proof {
            assert(s@.subrange(a as int, hi as int)[0] == s@[a as int]);
            assert(s@.subrange(a as int, hi as int).drop_first() =~= s@.subrange(
                a + 1,
                hi as int,
            ));
        }
        a = a + 1;
    }
    proof {
        assert(trim_front(s@.subrange(a as int, hi as int)) == s@.subrange(
            a as int,
            hi as int,
        )) by {
            if a < hi {
                assert(s@.subrange(a as int, hi as int)[0] == s@[a as int]);
            } else {
                assert(s@.subrange(a as int, hi as int).len() == 0);
            }
        }
    }
    while b > a
        invariant
            lo <= a <= b <= hi <= s@.len(),
            trim_back(s@.subrange(a as int, b as int)) == trim_back(trim_front(orig)),
        ensures
            a <= b <= hi,
            trim_back(s@.subrange(a as int, b as int)) == trim_back(trim_front(orig)),
            b == a || !is_space_char(s@[b - 1]),
        decreases b - a,
    {
        let c = s.get_char(b - 1);
        if !exec_is_space(c) {
            break ;
        }
        proof {
            assert(s@.subrange(a as int, b as int).last() == s@[b - 1]);
            assert(s@.subrange(a as int, b as int).drop_last() =~= s@.subrange(a as int, b - 1));
        }
        b = b - 1;
    }
    proof {
        assert(trim_back(s@.subrange(a as int, b as int)) == s@.subrange(a as int, b as int)) by {
            if a < b {
                assert(s@.subrange(a as int, b as int).last() == s@[b - 1]);
            } else {
                assert(s@.subrange(a as int, b as int).len() == 0);
            }
        }
    }
    (a, b)
}

/// Cleans a raw reply for display: trims surrounding whitespace, one
/// layer of quote characters, and whitespace again, in that order.
pub fn clean_message(message: &str) -> (r: String)
    ensures
        r@ == clean_spec(message@),
{
    let n: usize = message.unicode_len();
    proof {
        assert(message@.subrange(0, n as int) =~= message@);
    }
    let (a1, b1) = trim_bounds(message, 0, n);

    // One layer of quotes: at most one quote character from each end.
    let ghost t1 = message@.subrange(a1 as int, b1 as int);
    let mut a2: usize = a1;
    if a1 < b1 && message.get_char(a1) == '"' {
        proof {
            assert(t1[0] == message@[a1 as int]);
            assert(t1.drop_first() =~= message@.subrange(a1 + 1, b1 as int));
        }
        a2 = a1 + 1;
    } else {
        proof {
            if a1 < b1 {
                assert(t1[0] == message@[a1 as int]);
            }
        }
    }
    let ghost t2 = message@.subrange(a2 as int, b1 as int);
    proof {
        assert(t2 == strip_quote_front(t1));
    }
    let mut b2: usize = b1;
    if a2 < b1 && message.get_char(b1 - 1) == '"' {
        proof {
            assert(t2.last() == message@[b1 - 1]);
            assert(t2.drop_last() =~= message@.subrange(a2 as int, b1 - 1));
        }
        b2 = b1 - 1;
    } else {
        proof {
            if a2 < b1 {
                assert(t2.last() == message@[b1 - 1]);
            }
        }
    }
    proof {
        assert(message@.subrange(a2 as int, b2 as int) == strip_quote_layer(t1));
    }

    let (a3, b3) = trim_bounds(message, a2, b2);
    String::from_str(message.substring_char(a3, b3))
}

/// The fixed instruction that precedes every message in the prompt.
pub open spec fn system_prompt() -> Seq<char> {
    "Answer concisely in 2-3 sentences with a touch of humor. Plain text only, no formatting or quotes."@
}

/// The full prompt for a message: the fixed instruction, a connecting
/// phrase, then the message itself.
pub open spec fn prompt_of(message: Seq<char>) -> Seq<char> {
    system_prompt() + ", Answer the following\n "@ + message
}

/// Builds the prompt sent to the model for the given message.
pub fn build_prompt(message: &str) -> (r: String)
    ensures
        r@ == prompt_of(message@),
{
    let mut r = String::from_str(
        "Answer concisely in 2-3 sentences with a touch of humor. Plain text only, no formatting or quotes.",
    );
    r.append(", Answer the following\n ");
    r.append(message);
    r
}

/// The URL of the generation endpoint under a base URL.
pub open spec fn endpoint_of(base_url: Seq<char>) -> Seq<char> {
    base_url + "/api/generate"@
}

/// Builds the generation endpoint URL from the base URL.
pub fn endpoint_url(base_url: &str) -> (r: String)
    ensures
        r@ == endpoint_of(base_url@),
{
    let mut r = String::from_str(base_url);
    r.append("/api/generate");
    r
}

} // verus!
