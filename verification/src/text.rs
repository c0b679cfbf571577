//! Character-sequence helpers shared by the prompt renderer, the code-block
//! extractor and the transcript flattener.

use vstd::prelude::*;
use vstd::string::*;

verus! {

/// Relies on `String` implementing `FromIterator<char>`: collecting an
/// iterator of characters yields the string holding exactly those characters
/// in order.
#[verifier::external_body]
pub(crate) fn chars_to_string(v: &Vec<char>) -> (r: String)
    ensures
        r@ == v@,
{
    v.iter().collect()
}

/// The characters of `s`, in order, as a vector.
pub(crate) fn str_to_chars(s: &str) -> (r: Vec<char>)
    ensures
        r@ == s@,
{
    let n: usize = s.unicode_len();
    let mut r: Vec<char> = Vec::new();
    let mut i: usize = 0;
    while i < n
        invariant
            i <= n,
            n == s@.len(),
            r@ == s@.take(i as int),
        decreases n - i,
    {
        r.push(s.get_char(i));
        proof {
            assert(r@ =~= s@.take(i as int + 1));
        }
        i += 1;
    }
    proof {
        assert(r@ =~= s@);
    }
    r
}

/// The parts joined in order, with `sep` between consecutive parts.
pub open spec fn join_with(parts: Seq<Seq<char>>, sep: Seq<char>) -> Seq<char>
    decreases parts.len(),
{
    if parts.len() == 0 {
        Seq::empty()
    } else if parts.len() == 1 {
        parts[0]
    } else {
        parts[0] + sep + join_with(parts.skip(1), sep)
    }
}

/// Appending one part to a join: a separator appears exactly when something
/// was already joined.
pub proof fn lemma_join_with_push(parts: Seq<Seq<char>>, sep: Seq<char>, p: Seq<char>)
    ensures
        join_with(parts.push(p), sep) == if parts.len() == 0 {
            p
        } else {
            join_with(parts, sep) + sep + p
        },
    decreases parts.len(),
{
    if parts.len() == 0 {
        assert(parts.push(p)[0] == p);
        assert(join_with(parts.push(p), sep) == p);
    } else if parts.len() == 1 {
        assert(parts.push(p).skip(1) =~= seq![p]);
        assert(parts.push(p)[0] == parts[0]);
        assert(join_with(seq![p], sep) == seq![p][0]);
        assert(join_with(parts.push(p), sep) == parts[0] + sep + p);
        assert(join_with(parts, sep) + sep + p =~= parts[0] + sep + p);
    } else {
        assert(parts.push(p).skip(1) =~= parts.skip(1).push(p));
        lemma_join_with_push(parts.skip(1), sep, p);
        assert(join_with(parts.push(p), sep) == parts[0] + sep + (join_with(parts.skip(1), sep)
            + sep + p));
        assert(parts[0] + sep + (join_with(parts.skip(1), sep) + sep + p) =~= (parts[0] + sep
            + join_with(parts.skip(1), sep)) + sep + p);
    }
}

/// Joining two non-empty part lists joins each and puts one separator between.
pub proof fn lemma_join_with_concat(a: Seq<Seq<char>>, b: Seq<Seq<char>>, sep: Seq<char>)
    requires
        a.len() > 0,
        b.len() > 0,
    ensures
        join_with(a + b, sep) == join_with(a, sep) + sep + join_with(b, sep),
    decreases a.len(),
{
    if a.len() == 1 {
        assert((a + b).len() >= 2);
        assert((a + b)[0] == a[0]);
        assert((a + b).skip(1) =~= b);
        assert(join_with(a + b, sep) == a[0] + sep + join_with(b, sep));
        assert(join_with(a, sep) == a[0]);
    } else {
        assert((a + b)[0] == a[0]);
        assert((a + b).skip(1) =~= a.skip(1) + b);
        lemma_join_with_concat(a.skip(1), b, sep);
        assert(join_with(a + b, sep) == a[0] + sep + (join_with(a.skip(1), sep) + sep + join_with(
            b,
            sep,
        )));
        assert(a[0] + sep + (join_with(a.skip(1), sep) + sep + join_with(b, sep)) =~= (a[0] + sep
            + join_with(a.skip(1), sep)) + sep + join_with(b, sep));
    }
}

/// Index of the first occurrence of `c` in `s`, or `s.len()` if absent.
pub open spec fn find_char(s: Seq<char>, c: char) -> int
    decreases s.len(),
{
    if s.len() == 0 {
        0
    } else if s[0] == c {
        0
    } else {
        1 + find_char(s.skip(1), c)
    }
}

/// `find_char` points at the first occurrence: nothing before it is `c`, and
/// it is `c` itself unless it is `s.len()`.
pub proof fn lemma_find_char(s: Seq<char>, c: char)
    ensures
        0 <= find_char(s, c) <= s.len(),
        find_char(s, c) < s.len() ==> s[find_char(s, c)] == c,
        forall|j: int| 0 <= j < find_char(s, c) ==> s[j] != c,
    decreases s.len(),
{
    if s.len() == 0 {
    } else if s[0] == c {
    } else {
        lemma_find_char(s.skip(1), c);
        assert forall|j: int| 0 <= j < find_char(s, c) implies s[j] != c by {
            if j >= 1 {
                assert(s.skip(1)[j - 1] == s[j]);
            }
        }
    }
}

/// Conversely, a position with no `c` before it, and `c` at it unless it is
/// the length, is where `find_char` points.
pub proof fn lemma_find_char_at(s: Seq<char>, c: char, k: int)
    requires
        0 <= k <= s.len(),
        forall|j: int| 0 <= j < k ==> s[j] != c,
        k < s.len() ==> s[k] == c,
    ensures
        find_char(s, c) == k,
    decreases s.len(),
{
    if s.len() == 0 {
    } else if s[0] == c {
        assert(k == 0);
    } else {
        assert(k >= 1);
        assert forall|j: int| 0 <= j < k - 1 implies s.skip(1)[j] != c by {
            assert(s.skip(1)[j] == s[j + 1]);
        }
        if k - 1 < s.skip(1).len() {
            assert(s.skip(1)[k - 1] == s[k]);
        }
        lemma_find_char_at(s.skip(1), c, k - 1);
    }
}

} // verus!
