//! Literal placeholder substitution over character sequences.
//!
//! A template is an ordinary string; a placeholder is the token `{{key}}`.
//! Substitution replaces every occurrence of one placeholder, left to right
//! and without rescanning the inserted text.

use vstd::prelude::*;

verus! {

/// The placeholder token for `key`: `{{key}}`.
pub open spec fn placeholder(key: Seq<char>) -> Seq<char> {
    "{{"@ + key + "}}"@
}

/// `pat` occurs in `text` starting at position `i`.
pub open spec fn match_at(text: Seq<char>, pat: Seq<char>, i: int) -> bool {
    0 <= i && i + pat.len() <= text.len() && text.subrange(i, i + pat.len()) == pat
}

/// `pat` occurs somewhere in `text`.
pub open spec fn occurs(text: Seq<char>, pat: Seq<char>) -> bool {
    exists|i: int| match_at(text, pat, i)
}

/// `text` with every occurrence of `pat` replaced by `sub`, scanning left to
/// right; inserted text is not rescanned, so replacement is a single pass.
/// An empty `pat` never matches and leaves `text` unchanged.
pub open spec fn spec_replace(text: Seq<char>, pat: Seq<char>, sub: Seq<char>) -> Seq<char>
    decreases text.len(),
{
    if text.len() == 0 {
        text
    } else if 0 < pat.len() <= text.len() && text.subrange(0, pat.len() as int) == pat {
        sub + spec_replace(text.skip(pat.len() as int), pat, sub)
    } else {
        text.subrange(0, 1) + spec_replace(text.skip(1), pat, sub)
    }
}

/// `template` after substituting the table's entries one after the other:
/// for each `(key, value)` pair, in table order, every occurrence of
/// `{{key}}` is replaced by `value` in a single pass. An entry whose key
/// already had its placeholders consumed by an earlier entry has no effect,
/// so on duplicate keys the first entry wins.
pub open spec fn spec_subst(template: Seq<char>, table: Seq<(Seq<char>, Seq<char>)>) -> Seq<char>
    decreases table.len(),
{
    if table.len() == 0 {
        template
    } else {
        spec_subst(
            spec_replace(template, placeholder(table[0].0), table[0].1),
            table.skip(1),
        )
    }
}

/// Whether `pat` occurs in `text` starting at character position `i`.
fn is_match_at(text: &str, pat: &str, i: usize) -> (r: bool)
    requires
        i + pat@.len() <= text@.len() <= usize::MAX,
    ensures
        r == match_at(text@, pat@, i as int),
{
    let m = pat.unicode_len();
    let mut j: usize = 0;
    while j < m
        invariant
            j <= m,
            m == pat@.len(),
            i + m <= text@.len() <= usize::MAX,
            forall|k: int| 0 <= k < j ==> text@[i + k] == pat@[k],
        decreases m - j,
    {
        if text.get_char(i + j) != pat.get_char(j) {
            proof {
                assert(text@.subrange(i as int, i + m) != pat@) by {
                    assert(text@.subrange(i as int, i + m)[j as int] == text@[i + j]);
                }
            }
            return false;
        }
        j = j + 1;
    }
    proof {
        assert(text@.subrange(i as int, i + m) =~= pat@);
    }
    true
}

/// Replaces every occurrence of `pat` in `text` by `sub`, scanning left to
/// right in a single pass: inserted text is never rescanned.
pub fn replace_all(text: &str, pat: &str, sub: &str) -> (res: String)
    requires
        pat@.len() >= 1,
    ensures
        res@ == spec_replace(text@, pat@, sub@),
{
    let n = text.unicode_len();
    let m = pat.unicode_len();
    let mut res = String::new();
    let mut i: usize = 0;
    proof {
        assert(text@.skip(0) =~= text@);
    }
    while i < n
        invariant
            i <= n,
            n == text@.len(),
            m == pat@.len(),
            m >= 1,
            spec_replace(text@, pat@, sub@) == res@ + spec_replace(
                text@.skip(i as int),
                pat@,
                sub@,
            ),
        decreases n - i,
    {
        let ghost tail = text@.skip(i as int);
        if m <= n - i && is_match_at(text, pat, i) {
            res.append(sub);
            proof {
                assert(tail.subrange(0, m as int) =~= text@.subrange(i as int, i + m));
                assert(tail.skip(m as int) =~= text@.skip(i + m));
            }
            i = i + m;
        } else {
            let c = text.substring_char(i, i + 1);
            res.append(c);
            proof {
                assert(tail.len() > 0);
                if 0 < m <= tail.len() {
                    if tail.subrange(0, m as int) == pat@ {
                        assert(tail.subrange(0, m as int) =~= text@.subrange(i as int, i + m));
                        assert(match_at(text@, pat@, i as int));
                        assert(false);
                    }
                }
                assert(tail.subrange(0, 1) =~= text@.subrange(i as int, i + 1));
                assert(tail.skip(1) =~= text@.skip(i + 1));
            }
            i = i + 1;
        }
    }
    proof {
        assert(text@.skip(n as int) =~= Seq::<char>::empty());
        assert(res@ + Seq::<char>::empty() =~= res@);
    }
    res
}

/// Builds the placeholder token `{{key}}` for a key.
pub fn make_placeholder(key: &str) -> (res: String)
    ensures
        res@ == placeholder(key@),
        res@.len() >= 1,
{
    let mut res = String::new();
    res.append("{{");
    res.append(key);
    res.append("}}");
    proof {
        reveal_strlit("{{");
        reveal_strlit("}}");
    }
    res
}

} // verus!
