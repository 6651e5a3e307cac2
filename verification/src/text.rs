//! Plain-text scanning: splitting on a separator, whitespace tokens,
//! trimming, and substring search. These model, character by character, the
//! text shapes the resolver reads.

use vstd::prelude::*;
use vstd::string::StrSliceExecFns;

verus! {

/// The pieces of `s` between occurrences of `sep`: always one more piece
/// than there are separators, pieces may be empty.
pub open spec fn split_on(s: Seq<char>, sep: char) -> Seq<Seq<char>>
    decreases s.len(),
{
    if s.len() == 0 {
        seq![Seq::<char>::empty()]
    } else if s[0] == sep {
        seq![Seq::<char>::empty()] + split_on(s.drop_first(), sep)
    } else {
        let rest = split_on(s.drop_first(), sep);
        seq![seq![s[0]] + rest[0]] + rest.drop_first()
    }
}

pub proof fn lemma_split_on_len(s: Seq<char>, sep: char)
    ensures
        split_on(s, sep).len() >= 1,
    decreases s.len(),
{
    if s.len() > 0 && s[0] != sep {
        lemma_split_on_len(s.drop_first(), sep);
    }
}

/// Unfolds `split_on` one whole piece at a time: with no separator before
/// position `i`, the first piece is everything up to `i`.
pub proof fn lemma_split_on_head(s: Seq<char>, sep: char, i: int)
    requires
        0 <= i <= s.len(),
        forall|j: int| 0 <= j < i ==> s[j] != sep,
        i == s.len() || s[i] == sep,
    ensures
        i == s.len() ==> split_on(s, sep) =~~= seq![s],
        i < s.len() ==> split_on(s, sep) =~~= seq![s.take(i)] + split_on(s.skip(i + 1), sep),
    decreases i,
{
    if i == 0 {
        if s.len() == 0 {
            assert(split_on(s, sep) =~~= seq![s]);
        } else {
            assert(s[0] == sep);
            assert(s.take(0) =~= Seq::<char>::empty());
            assert(s.skip(1) =~= s.drop_first());
        }
    } else {
        let d = s.drop_first();
        lemma_split_on_head(d, sep, i - 1);
        lemma_split_on_len(d, sep);
        let rest = split_on(d, sep);
        if i == s.len() {
            assert(rest =~~= seq![d]);
            assert(seq![s[0]] + d =~= s);
            assert(split_on(s, sep) =~~= seq![s]);
        } else {
            assert(d[i - 1] == s[i]);
            assert(rest =~~= seq![d.take(i - 1)] + split_on(d.skip(i), sep));
            assert(seq![s[0]] + d.take(i - 1) =~= s.take(i));
            assert(d.skip(i) =~= s.skip(i + 1));
            assert(rest.drop_first() =~~= split_on(s.skip(i + 1), sep));
            assert(split_on(s, sep) =~~= seq![s.take(i)] + split_on(s.skip(i + 1), sep));
        }
    }
}

/// With no separator at all, the whole string is the single piece.
pub proof fn lemma_split_on_whole(s: Seq<char>, sep: char)
    requires
        forall|j: int| 0 <= j < s.len() ==> s[j] != sep,
    ensures
        split_on(s, sep) =~~= seq![s],
{
    lemma_split_on_head(s, sep, s.len() as int);
}

/// Splits `s` at every occurrence of `sep`.
pub fn split_str<'a>(s: &'a str, sep: char) -> (r: Vec<&'a str>)
    ensures
        r.deep_view() == split_on(s@, sep),
    decreases s@.len(),
{
    let n = s.unicode_len();
    let mut i: usize = 0;
    while i < n && s.get_char(i) != sep
        invariant
            0 <= i <= n,
            n == s@.len(),
            forall|j: int| 0 <= j < i ==> s@[j] != sep,
        decreases n - i,
    {
        i = i + 1;
    }
    proof {
        lemma_split_on_head(s@, sep, i as int);
    }
    if i == n {
        let mut r: Vec<&'a str> = Vec::new();
        r.push(s);
        proof {
            assert(r.deep_view() =~~= seq![s@]);
        }
        r
    } else {
        let head = s.substring_char(0, i);
        let tail = s.substring_char(i + 1, n);
        proof {
            assert(head@ =~= s@.take(i as int));
            assert(tail@ =~= s@.skip(i + 1));
        }
        let mut r = split_str(tail, sep);
        let ghost old_dv = r.deep_view();
        r.insert(0, head);
        proof {
            assert(r.deep_view() =~~= seq![head@] + old_dv);
        }
        r
    }
}

/// The whitespace characters that can separate tokens on a listing line.
pub open spec fn is_space(c: char) -> bool {
    c == ' ' || c == '\t' || c == '\r' || c == '\n'
}

/// Whether `c` separates tokens on a listing line.
pub fn is_space_char(c: char) -> (r: bool)
    ensures
        r == is_space(c),
{
    c == ' ' || c == '\t' || c == '\r' || c == '\n'
}

/// The maximal runs of non-whitespace characters in `s`, in order.
pub open spec fn tokens(s: Seq<char>) -> Seq<Seq<char>>
    decreases s.len(),
{
    if s.len() == 0 {
        Seq::<Seq<char>>::empty()
    } else if is_space(s[0]) {
        tokens(s.drop_first())
    } else {
        let rest = tokens(s.drop_first());
        if s.len() > 1 && !is_space(s[1]) {
            seq![seq![s[0]] + rest[0]] + rest.drop_first()
        } else {
            seq![seq![s[0]]] + rest
        }
    }
}

/// All-whitespace text has no tokens.
pub proof fn lemma_tokens_all_space(s: Seq<char>)
    requires
        forall|j: int| 0 <= j < s.len() ==> is_space(#[trigger] s[j]),
    ensures
        tokens(s) =~~= Seq::<Seq<char>>::empty(),
    decreases s.len(),
{
    if s.len() > 0 {
        lemma_tokens_all_space(s.drop_first());
    }
}

/// Unfolds `tokens` one whole token at a time: with only whitespace before
/// `a` and a maximal non-whitespace run from `a` to `b`, that run is the
/// first token.
pub proof fn lemma_tokens_head(s: Seq<char>, a: int, b: int)
    requires
        0 <= a < b <= s.len(),
        forall|j: int| 0 <= j < a ==> is_space(#[trigger] s[j]),
        forall|j: int| a <= j < b ==> !is_space(#[trigger] s[j]),
        b == s.len() || is_space(s[b]),
    ensures
        tokens(s) =~~= seq![s.subrange(a, b)] + tokens(s.skip(b)),
    decreases s.len(),
{
    let d = s.drop_first();
    if a > 0 {
        lemma_tokens_head(d, a - 1, b - 1);
        assert(d.subrange(a - 1, b - 1) =~= s.subrange(a, b));
        assert(d.skip(b - 1) =~= s.skip(b));
    } else {
        assert(!is_space(s[0]));
        if b == 1 {
            assert(s.len() == 1 || is_space(s[1]));
            assert(seq![s[0]] =~= s.subrange(0, 1));
            assert(d =~= s.skip(1));
            if s.len() == 1 {
                assert(tokens(s) =~~= seq![seq![s[0]]] + tokens(d));
            }
        } else {
            assert(!is_space(s[1]));
            lemma_tokens_head(d, 0, b - 1);
            let rest = tokens(d);
            assert(rest[0] == d.subrange(0, b - 1));
            assert(seq![s[0]] + d.subrange(0, b - 1) =~= s.subrange(0, b));
            assert(d.skip(b - 1) =~= s.skip(b));
            assert(rest.drop_first() =~~= tokens(s.skip(b)));
        }
    }
}

/// The second whitespace-delimited token of `s`, if there are at least two.
#[verifier::loop_isolation(false)]
pub fn second_token<'a>(s: &'a str) -> (r: Option<&'a str>)
    ensures
        match r {
            Some(t) => tokens(s@).len() >= 2 && t@ == tokens(s@)[1],
            None => tokens(s@).len() < 2,
        },
{
    let n = s.unicode_len();
    let mut a0: usize = 0;
    while a0 < n && is_space_char(s.get_char(a0))
        invariant
            0 <= a0 <= n,
            forall|j: int| 0 <= j < a0 ==> is_space(#[trigger] s@[j]),
        decreases n - a0,
    {
        a0 = a0 + 1;
    }
    if a0 == n {
        proof {
            lemma_tokens_all_space(s@);
        }
        return None;
    }
    let mut b0: usize = a0;
    while b0 < n && !is_space_char(s.get_char(b0))
        invariant
            a0 <= b0 <= n,
            forall|j: int| a0 <= j < b0 ==> !is_space(#[trigger] s@[j]),
        decreases n - b0,
    {
        b0 = b0 + 1;
    }
    proof {
        lemma_tokens_head(s@, a0 as int, b0 as int);
    }
    let mut a1: usize = b0;
    while a1 < n && is_space_char(s.get_char(a1))
        invariant
            b0 <= a1 <= n,
            forall|j: int| b0 <= j < a1 ==> is_space(#[trigger] s@[j]),
        decreases n - a1,
    {
        a1 = a1 + 1;
    }
    if a1 == n {
        proof {
            assert(forall|j: int| 0 <= j < s@.skip(b0 as int).len() ==> is_space(
                #[trigger] s@.skip(b0 as int)[j],
            ));
            lemma_tokens_all_space(s@.skip(b0 as int));
        }
        return None;
    }
    let mut b1: usize = a1;
    while b1 < n && !is_space_char(s.get_char(b1))
        invariant
            a1 <= b1 <= n,
            forall|j: int| a1 <= j < b1 ==> !is_space(#[trigger] s@[j]),
        decreases n - b1,
    {
        b1 = b1 + 1;
    }
    let t = s.substring_char(a1, b1);
    proof {
        let rest = s@.skip(b0 as int);
        assert(forall|j: int| 0 <= j < a1 - b0 ==> is_space(#[trigger] rest[j]));
        assert(forall|j: int| a1 - b0 <= j < b1 - b0 ==> !is_space(#[trigger] rest[j]));
        lemma_tokens_head(rest, a1 - b0 as int, b1 - b0 as int);
        assert(rest.subrange(a1 - b0 as int, b1 - b0 as int) =~= s@.subrange(a1 as int, b1 as int));
        assert(tokens(s@)[1] == s@.subrange(a1 as int, b1 as int));
    }
    Some(t)
}

/// `s` with leading whitespace removed.
pub open spec fn trim_start_spec(s: Seq<char>) -> Seq<char>
    decreases s.len(),
{
    if s.len() > 0 && is_space(s[0]) {
        trim_start_spec(s.drop_first())
    } else {
        s
    }
}

/// `s` with trailing whitespace removed.
pub open spec fn trim_end_spec(s: Seq<char>) -> Seq<char>
    decreases s.len(),
{
    if s.len() > 0 && is_space(s.last()) {
        trim_end_spec(s.drop_last())
    } else {
        s
    }
}

/// `s` with leading and trailing whitespace removed.
pub open spec fn trim_spec(s: Seq<char>) -> Seq<char> {
    trim_end_spec(trim_start_spec(s))
}

pub proof fn lemma_trim_start_skip(s: Seq<char>, a: int)
    requires
        0 <= a <= s.len(),
        forall|j: int| 0 <= j < a ==> is_space(#[trigger] s[j]),
        a == s.len() || !is_space(s[a]),
    ensures
        trim_start_spec(s) == s.skip(a),
    decreases a,
{
    if a == 0 {
        assert(s.skip(0) =~= s);
    } else {
        lemma_trim_start_skip(s.drop_first(), a - 1);
        assert(s.drop_first().skip(a - 1) =~= s.skip(a));
    }
}

pub proof fn lemma_trim_end_take(s: Seq<char>, b: int)
    requires
        0 <= b <= s.len(),
        forall|j: int| b <= j < s.len() ==> is_space(#[trigger] s[j]),
        b == 0 || !is_space(s[b - 1]),
    ensures
        trim_end_spec(s) == s.take(b),
    decreases s.len() - b,
{
    if b == s.len() {
        assert(s.take(b) =~= s);
    } else {
        assert(is_space(s.last()));
        lemma_trim_end_take(s.drop_last(), b);
        assert(s.drop_last().take(b) =~= s.take(b));
    }
}

/// Removes leading and trailing whitespace.
#[verifier::loop_isolation(false)]
pub fn trim_str<'a>(s: &'a str) -> (r: &'a str)
    ensures
        r@ == trim_spec(s@),
{
    let n = s.unicode_len();
    let mut a: usize = 0;
    while a < n && is_space_char(s.get_char(a))
        invariant
            0 <= a <= n,
            forall|j: int| 0 <= j < a ==> is_space(#[trigger] s@[j]),
        decreases n - a,
    {
        a = a + 1;
    }
    proof {
        lemma_trim_start_skip(s@, a as int);
    }
    if a == n {
        proof {
            assert(s@.skip(a as int) =~= Seq::<char>::empty());
        }
        return s.substring_char(n, n);
    }
    let mut b: usize = n;
    while b > a && is_space_char(s.get_char(b - 1))
        invariant
            a < b <= n,
            forall|j: int| b <= j < n ==> is_space(#[trigger] s@[j]),
        decreases b,
    {
        b = b - 1;
    }
    proof {
        let d = s@.skip(a as int);
        assert(forall|j: int| b - a <= j < d.len() ==> is_space(#[trigger] d[j]));
        assert(!is_space(d[b - a - 1]));
        lemma_trim_end_take(d, b - a as int);
        assert(d.take(b - a as int) =~= s@.subrange(a as int, b as int));
    }
    s.substring_char(a, b)
}

/// `needle` occurs in `hay` starting at position `i`.
pub open spec fn contains_at(hay: Seq<char>, needle: Seq<char>, i: int) -> bool {
    &&& 0 <= i
    &&& i + needle.len() <= hay.len()
    &&& hay.subrange(i, i + needle.len()) == needle
}

/// `needle` occurs somewhere in `hay`.
pub open spec fn contains_seq(hay: Seq<char>, needle: Seq<char>) -> bool {
    exists|i: int| contains_at(hay, needle, i)
}

/// Substring search by direct scan.
#[verifier::loop_isolation(false)]
pub fn str_contains(hay: &str, needle: &str) -> (r: bool)
    ensures
        r == contains_seq(hay@, needle@),
{
    let n = hay.unicode_len();
    let m = needle.unicode_len();
    if m > n {
        proof {
            assert(forall|i: int| !contains_at(hay@, needle@, i));
        }
        return false;
    }
    let mut i: usize = 0;
    while i <= n - m
        invariant
            0 <= i <= n - m + 1,
            forall|k: int| 0 <= k < i ==> !contains_at(hay@, needle@, k),
        decreases n - m + 1 - i,
    {
        let mut j: usize = 0;
        while j < m && hay.get_char(i + j) == needle.get_char(j)
            invariant
                0 <= j <= m,
                i + m <= n,
                forall|l: int| 0 <= l < j ==> hay@[i + l] == needle@[l],
            decreases m - j,
        {
            j = j + 1;
        }
        if j == m {
            proof {
                assert(hay@.subrange(i as int, i + m) =~= needle@);
                assert(contains_at(hay@, needle@, i as int));
            }
            return true;
        }
        proof {
            assert(hay@[i + j] != needle@[j as int]);
            assert(!contains_at(hay@, needle@, i as int)) by {
                if contains_at(hay@, needle@, i as int) {
                    assert(hay@.subrange(i as int, i + m)[j as int] == hay@[i + j]);
                }
            }
        }
        i = i + 1;
    }
    proof {
        assert(forall|k: int| !contains_at(hay@, needle@, k)) by {
            assert(forall|k: int| k > n - m ==> !contains_at(hay@, needle@, k));
        }
    }
    false
}

/// Character-for-character string equality.
pub fn str_eq(a: &str, b: &str) -> (r: bool)
    ensures
        r == (a@ == b@),
{
    let n = a.unicode_len();
    let m = b.unicode_len();
    if n != m {
        return false;
    }
    let mut i: usize = 0;
    while i < n
        invariant
            0 <= i <= n,
            n == a@.len(),
            n == b@.len(),
            forall|j: int| 0 <= j < i ==> a@[j] == b@[j],
        decreases n - i,
    {
        if a.get_char(i) != b.get_char(i) {
            return false;
        }
        i = i + 1;
    }
    proof {
        assert(a@ =~= b@);
    }
    true
}

} // verus!
