//! Semantic versions: the parsed form of a version string such as `18.5.0`
//! or `v18.5.0`, and the grammar of its numeric components.

use crate::text::{split_on, split_str};
use vstd::prelude::*;
use vstd::string::StrSliceExecFns;

verus! {

/// A parsed semantic version: a (major, minor, patch) triple.
#[derive(Clone, Copy, Debug, PartialEq, Eq, Structural)]
pub struct SemanticVersion {
    pub major: u64,
    pub minor: u64,
    pub patch: u64,
}

/// A decimal digit character.
pub open spec fn is_digit(c: char) -> bool {
    48 <= (c as u32) && (c as u32) <= 57
}

/// The numeric value of a decimal digit character.
pub open spec fn digit_value(c: char) -> int {
    (c as u32) - 48
}

pub open spec fn all_digits(s: Seq<char>) -> bool {
    forall|i: int| 0 <= i < s.len() ==> is_digit(#[trigger] s[i])
}

/// The number a sequence of decimal digits denotes, most significant first.
pub open spec fn numeric_value(s: Seq<char>) -> int
    decreases s.len(),
{
    if s.len() == 0 {
        0
    } else {
        numeric_value(s.drop_last()) * 10 + digit_value(s.last())
    }
}

/// A well-formed numeric version component: nonempty, all digits, no
/// leading zero, and small enough to hold in a `u64`.
pub open spec fn is_numeric_component(s: Seq<char>) -> bool {
    &&& s.len() > 0
    &&& all_digits(s)
    &&& (s[0] != '0' || s.len() == 1)
    &&& numeric_value(s) <= u64::MAX
}

pub proof fn lemma_numeric_value_nonneg(s: Seq<char>)
    requires
        all_digits(s),
    ensures
        numeric_value(s) >= 0,
    decreases s.len(),
{
    if s.len() > 0 {
        assert(all_digits(s.drop_last()));
        lemma_numeric_value_nonneg(s.drop_last());
    }
}

/// Extending a digit string on the right can only increase its value.
pub proof fn lemma_numeric_value_prefix_le(s: Seq<char>, i: int)
    requires
        all_digits(s),
        0 <= i <= s.len(),
    ensures
        numeric_value(s.take(i)) <= numeric_value(s),
    decreases s.len() - i,
{
    if i == s.len() {
        assert(s.take(i) =~= s);
    } else {
        lemma_numeric_value_prefix_le(s, i + 1);
        assert(s.take(i + 1).drop_last() =~= s.take(i));
        assert(s.take(i + 1).last() == s[i]);
        assert(all_digits(s.take(i)));
        lemma_numeric_value_nonneg(s.take(i));
        assert(numeric_value(s.take(i + 1)) == numeric_value(s.take(i)) * 10 + digit_value(s[i]));
    }
}

/// Parses one numeric version component. Returns its value exactly when the
/// text is a well-formed component.
pub fn parse_numeric_component(s: &str) -> (r: Option<u64>)
    ensures
        match r {
            Some(x) => is_numeric_component(s@) && x == numeric_value(s@),
            None => !is_numeric_component(s@),
        },
{
    let n = s.unicode_len();
    if n == 0 {
        return None;
    }
    if s.get_char(0) == '0' && n > 1 {
        return None;
    }
    let mut acc: u64 = 0;
    let mut i: usize = 0;
    while i < n
        invariant
            0 <= i <= n,
            1 <= n == s@.len(),
            s@[0] != '0' || n == 1,
            all_digits(s@.take(i as int)),
            acc == numeric_value(s@.take(i as int)),
        decreases n - i,
    {
        let c = s.get_char(i);
        let x = c as u32;
        if x < 48 || x > 57 {
            assert(!is_digit(s@[i as int]));
            return None;
        }
        let d = (x - 48) as u64;
        proof {
            assert(s@.take(i + 1).drop_last() =~= s@.take(i as int));
            assert(s@.take(i + 1).last() == s@[i as int]);
            assert(all_digits(s@.take(i + 1)));
        }
        if acc > 1844674407370955161u64 || (acc == 1844674407370955161u64 && d > 5) {
            proof {
                assert(numeric_value(s@.take(i + 1)) == acc * 10 + d);
                assert(numeric_value(s@.take(i + 1)) > u64::MAX);
                if all_digits(s@) {
                    lemma_numeric_value_prefix_le(s@, i + 1);
                }
            }
            return None;
        }
        acc = acc * 10 + d;
        i = i + 1;
    }
    proof {
        assert(s@.take(n as int) =~= s@);
    }
    Some(acc)
}

/// The version text with one leading `v` removed, if present.
pub open spec fn strip_v_prefix(s: Seq<char>) -> Seq<char> {
    if s.len() > 0 && s[0] == 'v' {
        s.drop_first()
    } else {
        s
    }
}

/// What a version string denotes: after stripping a leading `v`, exactly
/// three well-formed numeric components separated by dots, or nothing.
pub open spec fn parse_version_spec(s: Seq<char>) -> Option<SemanticVersion> {
    let parts = split_on(strip_v_prefix(s), '.');
    if parts.len() == 3 && is_numeric_component(parts[0]) && is_numeric_component(parts[1])
        && is_numeric_component(parts[2]) {
        Some(
            SemanticVersion {
                major: numeric_value(parts[0]) as u64,
                minor: numeric_value(parts[1]) as u64,
                patch: numeric_value(parts[2]) as u64,
            },
        )
    } else {
        None
    }
}

/// Parses a full version string such as `18.5.0` or `v18.5.0`.
pub fn parse_version(s: &str) -> (r: Option<SemanticVersion>)
    ensures
        r == parse_version_spec(s@),
{
    let n = s.unicode_len();
    let core = if n > 0 && s.get_char(0) == 'v' {
        s.substring_char(1, n)
    } else {
        s
    };
    proof {
        assert(core@ =~= strip_v_prefix(s@));
    }
    let parts = split_str(core, '.');
    if parts.len() != 3 {
        return None;
    }
    proof {
        assert(parts@[0]@ == split_on(core@, '.')[0]);
        assert(parts@[1]@ == split_on(core@, '.')[1]);
        assert(parts@[2]@ == split_on(core@, '.')[2]);
    }
    let major = match parse_numeric_component(parts[0]) {
        Some(x) => x,
        None => { return None },
    };
    let minor = match parse_numeric_component(parts[1]) {
        Some(x) => x,
        None => { return None },
    };
    let patch = match parse_numeric_component(parts[2]) {
        Some(x) => x,
        None => { return None },
    };
    Some(SemanticVersion { major, minor, patch })
}

/// A version string prefixed with `v` parses identically to the same
/// string without the prefix.
pub proof fn lemma_v_prefix_parses_identically(s: Seq<char>)
    requires
        s.len() == 0 || s[0] != 'v',
    ensures
        parse_version_spec(seq!['v'] + s) == parse_version_spec(s),
{
    assert((seq!['v'] + s)[0] == 'v');
    assert(strip_v_prefix(seq!['v'] + s) =~= s);
    assert(strip_v_prefix(s) =~= s);
}

} // verus!
