//! Laws of placeholder substitution: unresolved placeholders pass through
//! unchanged, and substituting distinct keys is order-independent on
//! well-formed templates.

use vstd::prelude::*;

use crate::formatter::{Formatter, Level, Output, spec_colored_label, spec_format, spec_palette,
    spec_plain_label, spec_table};
use crate::subst::{match_at, occurs, placeholder, spec_replace, spec_subst};

verus! {

/// `s` contains no brace character, so no placeholder can begin or end
/// inside it.
pub open spec fn brace_free(s: Seq<char>) -> bool {
    forall|i: int| 0 <= i < s.len() ==> s[i] != '{' && s[i] != '}'
}

/// Every doubled opening brace of `t` starts a well-formed placeholder
/// `{{key}}` with a brace-free key.
pub open spec fn template_ok(t: Seq<char>) -> bool {
    forall|i: int|
        #![trigger t[i], t[i + 1]]
        0 <= i < t.len() - 1 && t[i] == '{' && t[i + 1] == '{' ==> exists|k: Seq<char>|
            brace_free(k) && #[trigger] match_at(t, placeholder(k), i)
}

/// The characters of the placeholder token `{{key}}`.
proof fn lemma_placeholder_chars(k: Seq<char>)
    ensures
        placeholder(k).len() == k.len() + 4,
        placeholder(k)[0] == '{',
        placeholder(k)[1] == '{',
        placeholder(k)[k.len() as int + 2] == '}',
        placeholder(k)[k.len() as int + 3] == '}',
        forall|i: int| 0 <= i < k.len() ==> placeholder(k)[i + 2] == k[i],
        placeholder(k).subrange(2, k.len() as int + 2) == k,
{
    reveal_strlit("{{");
    reveal_strlit("}}");
    assert(placeholder(k).subrange(2, k.len() as int + 2) =~= k);
}

/// A match in a suffix of `t` is a match in `t`, and the other way round.
proof fn lemma_match_shift(t: Seq<char>, p: Seq<char>, n: int, i: int)
    requires
        0 <= n <= t.len(),
        0 <= i,
    ensures
        match_at(t.skip(n), p, i) == match_at(t, p, n + i),
{
    if i + p.len() <= t.skip(n).len() {
        assert(t.skip(n).subrange(i, i + p.len()) =~= t.subrange(n + i, n + i + p.len()));
    }
}

/// Without an occurrence of `pat`, replacement leaves `text` unchanged.
pub proof fn lemma_replace_no_match(text: Seq<char>, pat: Seq<char>, sub: Seq<char>)
    requires
        !occurs(text, pat),
    ensures
        spec_replace(text, pat, sub) == text,
    decreases text.len(),
{
    if text.len() == 0 {
    } else {
        assert(!match_at(text, pat, 0));
        if 0 < pat.len() <= text.len() && text.subrange(0, pat.len() as int) == pat {
            assert(match_at(text, pat, 0));
        }
        assert forall|i: int| !match_at(text.skip(1), pat, i) by {
            if 0 <= i {
                lemma_match_shift(text, pat, 1, i);
                assert(!match_at(text, pat, 1 + i));
            }
        }
        lemma_replace_no_match(text.skip(1), pat, sub);
        assert(text.subrange(0, 1) + text.skip(1) =~= text);
    }
}

/// Replacement scans past a match-free prefix untouched: the result is that
/// prefix followed by the replacement of the rest.
proof fn lemma_replace_split(t: Seq<char>, p: Seq<char>, v: Seq<char>, n: int)
    requires
        0 < p.len(),
        0 <= n <= t.len(),
        forall|j: int| 0 <= j < n ==> !match_at(t, p, j),
    ensures
        spec_replace(t, p, v) == t.take(n) + spec_replace(t.skip(n), p, v),
    decreases n,
{
    if n == 0 {
        assert(t.take(0) + spec_replace(t.skip(0), p, v) =~= spec_replace(t.skip(0), p, v));
        assert(t.skip(0) =~= t);
    } else {
        assert(!match_at(t, p, 0));
        if p.len() <= t.len() && t.subrange(0, p.len() as int) == p {
            assert(match_at(t, p, 0));
        }
        assert forall|j: int| 0 <= j < n - 1 implies !match_at(t.skip(1), p, j) by {
            lemma_match_shift(t, p, 1, j);
            assert(!match_at(t, p, 1 + j));
        }
        lemma_replace_split(t.skip(1), p, v, n - 1);
        assert(t.skip(1).take(n - 1) =~= t.subrange(1, n));
        assert(t.skip(1).skip(n - 1) =~= t.skip(n));
        assert(t.subrange(0, 1) + (t.subrange(1, n) + spec_replace(t.skip(n), p, v)) =~= t.take(n)
            + spec_replace(t.skip(n), p, v));
    }
}

/// Two placeholders of brace-free keys that match at the same position have
/// the same key: no placeholder is a proper prefix of another.
proof fn lemma_same_start(t: Seq<char>, k1: Seq<char>, k2: Seq<char>, i: int)
    requires
        brace_free(k1),
        brace_free(k2),
        match_at(t, placeholder(k1), i),
        match_at(t, placeholder(k2), i),
    ensures
        k1 == k2,
{
    lemma_placeholder_chars(k1);
    lemma_placeholder_chars(k2);
    let p1 = placeholder(k1);
    let p2 = placeholder(k2);
    let n1 = p1.len() as int;
    let n2 = p2.len() as int;
    assert(forall|m: int| #![trigger p1[m]] 0 <= m < n1 ==> t[i + m] == p1[m]) by {
        assert(forall|m: int|
            0 <= m < n1 ==> #[trigger] t.subrange(i, i + n1)[m] == t[i + m]);
    }
    assert(forall|m: int| #![trigger p2[m]] 0 <= m < n2 ==> t[i + m] == p2[m]) by {
        assert(forall|m: int|
            0 <= m < n2 ==> #[trigger] t.subrange(i, i + n2)[m] == t[i + m]);
    }
    if n1 < n2 {
        assert(p2[n1 - 2] == p1[n1 - 2] == '}');
        assert(2 <= n1 - 2 < 2 + k2.len());
        assert(p2[n1 - 2] == k2[n1 - 4]);
        assert(false);
    }
    if n2 < n1 {
        assert(p1[n2 - 2] == p2[n2 - 2] == '}');
        assert(2 <= n2 - 2 < 2 + k1.len());
        assert(p1[n2 - 2] == k1[n2 - 4]);
        assert(false);
    }
    assert(k1 =~= k2) by {
        assert(forall|m: int|
            0 <= m < k1.len() ==> #[trigger] k1[m] == p1[m + 2] == p2[m + 2] == k2[m]);
    }
}

/// Placeholders of brace-free keys never overlap partially: a later match
/// begins past the end of an earlier one.
proof fn lemma_no_overlap(t: Seq<char>, k1: Seq<char>, k2: Seq<char>, i: int, j: int)
    requires
        brace_free(k1),
        brace_free(k2),
        match_at(t, placeholder(k1), i),
        match_at(t, placeholder(k2), j),
        i < j,
    ensures
        j >= i + placeholder(k1).len(),
{
    if j >= i + placeholder(k1).len() {
        return;
    }
    lemma_placeholder_chars(k1);
    lemma_placeholder_chars(k2);
    let p1 = placeholder(k1);
    let p2 = placeholder(k2);
    let n1 = p1.len() as int;
    assert(forall|m: int| #![trigger p1[m]] 0 <= m < n1 ==> t[i + m] == p1[m]) by {
        assert(forall|m: int|
            0 <= m < n1 ==> #[trigger] t.subrange(i, i + n1)[m] == t[i + m]);
    }
    assert(t[j] == p2[0]) by {
        assert(t.subrange(j, j + p2.len())[0] == t[j]);
    }
    assert(t[j + 1] == p2[1]) by {
        assert(t.subrange(j, j + p2.len())[1] == t[j + 1]);
    }
    let m = j - i;
    assert(p1[m] == '{');
    if 2 <= m < 2 + k1.len() {
        assert(p1[m] == k1[m - 2]);
        assert(false);
    }
    assert(m == 1);
    assert(t[i + 2] == '{');
    if k1.len() > 0 {
        assert(p1[2] == k1[0]);
    } else {
        assert(p1[2] == '}');
    }
    assert(false);
}

/// A suffix of a well-formed template is well formed.
proof fn lemma_template_ok_skip(t: Seq<char>, n: int)
    requires
        template_ok(t),
        0 <= n <= t.len(),
    ensures
        template_ok(t.skip(n)),
{
    let s = t.skip(n);
    assert forall|i: int|
        #![trigger s[i], s[i + 1]]
        0 <= i < s.len() - 1 && s[i] == '{' && s[i + 1] == '{' implies exists|k: Seq<char>|
        brace_free(k) && #[trigger] match_at(s, placeholder(k), i) by {
        assert(t[n + i] == '{' && t[n + i + 1] == '{');
        let k = choose|k: Seq<char>|
            brace_free(k) && #[trigger] match_at(t, placeholder(k), n + i);
        lemma_match_shift(t, placeholder(k), n, i);
        assert(brace_free(k) && match_at(s, placeholder(k), i));
    }
}

/// Looks for the close of a placeholder opened at position `i`: returns the
/// position of its closing braces if the key region is brace-free and
/// properly closed, and `None` if no brace-free key can match at `i`.
fn find_placeholder_close(t: &str, i: usize, n: usize) -> (res: Option<usize>)
    requires
        n == t@.len(),
        i + 1 < n,
        t@[i as int] == '{',
        t@[i as int + 1] == '{',
    ensures
        match res {
            Some(j) => {
                &&& i + 2 <= j && j + 1 < n
                &&& forall|m: int| i + 2 <= m < j ==> t@[m] != '{' && t@[m] != '}'
                &&& t@[j as int] == '}'
                &&& t@[j as int + 1] == '}'
            },
            None => forall|k: Seq<char>|
                !(brace_free(k) && #[trigger] match_at(t@, placeholder(k), i as int)),
        },
{
    let mut j: usize = i + 2;
    while j < n
        invariant
            i + 2 <= j <= n,
            n == t@.len(),
            i + 1 < n,
            t@[i as int] == '{',
            t@[i as int + 1] == '{',
            forall|m: int| i + 2 <= m < j ==> t@[m] != '{' && t@[m] != '}',
        decreases n - j,
    {
        let c = t.get_char(j);
        if c == '}' {
            if j + 1 < n && t.get_char(j + 1) == '}' {
                return Some(j);
            }
            proof {
                assert forall|k: Seq<char>|
                    !(brace_free(k) && #[trigger] match_at(t@, placeholder(k), i as int)) by {
                    if brace_free(k) && match_at(t@, placeholder(k), i as int) {
                        lemma_match_chars(t@, k, i as int);
                        let close = i + 2 + k.len() as int;
                        if j < close {
                            assert(t@[j as int] == k[j - i - 2]);
                        } else if j > close {
                            assert(t@[close] == '}');
                        } else {
                            assert(t@[j as int + 1] == '}');
                            assert(j + 1 < n);
                        }
                    }
                }
            }
            return None;
        } else if c == '{' {
            proof {
                assert forall|k: Seq<char>|
                    !(brace_free(k) && #[trigger] match_at(t@, placeholder(k), i as int)) by {
                    if brace_free(k) && match_at(t@, placeholder(k), i as int) {
                        lemma_match_chars(t@, k, i as int);
                        let close = i + 2 + k.len() as int;
                        if j < close {
                            assert(t@[j as int] == k[j - i - 2]);
                        } else if j > close {
                            assert(t@[close] == '}');
                        } else {
                            assert(t@[close] == '}');
                        }
                    }
                }
            }
            return None;
        }
        j = j + 1;
    }
    proof {
        assert forall|k: Seq<char>|
            !(brace_free(k) && #[trigger] match_at(t@, placeholder(k), i as int)) by {
            if brace_free(k) && match_at(t@, placeholder(k), i as int) {
                lemma_match_chars(t@, k, i as int);
                assert(t@[i + 2 + k.len() as int] == '}');
            }
        }
    }
    None
}

/// The characters a placeholder match at `i` pins down in the text.
proof fn lemma_match_chars(t: Seq<char>, k: Seq<char>, i: int)
    requires
        match_at(t, placeholder(k), i),
    ensures
        i + k.len() + 4 <= t.len(),
        t[i] == '{',
        t[i + 1] == '{',
        forall|m: int| 0 <= m < k.len() ==> t[i + 2 + m] == k[m],
        t[i + 2 + k.len() as int] == '}',
        t[i + 3 + k.len() as int] == '}',
{
    lemma_placeholder_chars(k);
    let p = placeholder(k);
    let np = p.len() as int;
    assert forall|m: int| #![trigger p[m]] 0 <= m < np implies t[i + m] == p[m] by {
        assert(t.subrange(i, i + np)[m] == t[i + m]);
    }
    assert forall|m: int| 0 <= m < k.len() implies t[i + 2 + m] == k[m] by {
        assert(t[i + 2 + m] == p[2 + m]);
    }
}

/// Decides whether every doubled opening brace of `t` starts a well-formed
/// placeholder: the executable form of [`template_ok`].
#[verifier::rlimit(100)]
pub fn is_template_ok(t: &str) -> (r: bool)
    ensures
        r == template_ok(t@),
{
    let n = t.unicode_len();
    let mut i: usize = 0;
    while i < n
        invariant
            i <= n,
            n == t@.len(),
            forall|m: int|
                #![trigger t@[m], t@[m + 1]]
                0 <= m < i && m < n - 1 && t@[m] == '{' && t@[m + 1] == '{' ==> exists|
                    k: Seq<char>,
                |
                    brace_free(k) && #[trigger] match_at(t@, placeholder(k), m),
        decreases n - i,
    {
        if t.get_char(i) == '{' && i + 1 < n && t.get_char(i + 1) == '{' {
            match find_placeholder_close(t, i, n) {
                Some(j) => {
                    proof {
                        let k = t@.subrange(i + 2, j as int);
                        lemma_placeholder_chars(k);
                        assert(brace_free(k)) by {
                            assert forall|m: int| 0 <= m < k.len() implies k[m] != '{' && k[m]
                                != '}' by {
                                assert(k[m] == t@[i + 2 + m]);
                            }
                        }
                        assert(t@.subrange(i as int, j + 2) =~= placeholder(k)) by {
                            assert forall|m: int|
                                0 <= m < j + 2 - i implies t@.subrange(i as int, j + 2)[m]
                                == placeholder(k)[m] by {
                                assert(t@.subrange(i as int, j + 2)[m] == t@[i + m]);
                                if 2 <= m < k.len() + 2 {
                                    assert(placeholder(k)[m] == k[m - 2]);
                                    assert(k[m - 2] == t@[i + m]);
                                }
                            }
                        }
                        assert(match_at(t@, placeholder(k), i as int));
                        assert forall|m: int|
                            #![trigger t@[m], t@[m + 1]]
                            0 <= m < j + 2 && m < n - 1 && t@[m] == '{' && t@[m + 1]
                                == '{' implies exists|k2: Seq<char>|
                            brace_free(k2) && #[trigger] match_at(t@, placeholder(k2), m) by {
                            if m < i {
                            } else if m == i {
                                assert(brace_free(k) && match_at(t@, placeholder(k), i as int));
                            } else if m == i + 1 {
                                assert(t@[m + 1] != '{');
                            } else if m < j {
                                assert(t@[m] != '{');
                            } else {
                                assert(t@[m] == '}');
                            }
                        }
                    }
                    i = j + 2;
                },
                None => {
                    proof {
                        assert(!template_ok(t@)) by {
                            if template_ok(t@) {
                                assert(t@[i as int] == '{' && t@[i as int + 1] == '{');
                                let k = choose|k: Seq<char>|
                                    brace_free(k) && #[trigger] match_at(
                                        t@,
                                        placeholder(k),
                                        i as int,
                                    );
                                assert(!(brace_free(k) && match_at(t@, placeholder(k), i as int)));
                            }
                        }
                    }
                    return false;
                },
            }
        } else {
            i = i + 1;
        }
    }
    proof {
        assert(template_ok(t@));
    }
    true
}

/// Substituting two distinct brace-free keys with brace-free values is
/// order-independent: replacing `{{k1}}` by `v1` and then `{{k2}}` by `v2`
/// gives the same text as substituting in the other order, on every template
/// whose doubled opening braces each start a well-formed placeholder.
pub proof fn lemma_replace_order_independent(
    t: Seq<char>,
    k1: Seq<char>,
    v1: Seq<char>,
    k2: Seq<char>,
    v2: Seq<char>,
)
    requires
        k1 != k2,
        brace_free(k1),
        brace_free(k2),
        brace_free(v1),
        brace_free(v2),
        template_ok(t),
    ensures
        spec_replace(spec_replace(t, placeholder(k1), v1), placeholder(k2), v2) == spec_replace(
            spec_replace(t, placeholder(k2), v2),
            placeholder(k1),
            v1,
        ),
    decreases t.len(), 1int,
{
    let p1 = placeholder(k1);
    let p2 = placeholder(k2);
    lemma_placeholder_chars(k1);
    lemma_placeholder_chars(k2);
    if t.len() == 0 {
    } else if match_at(t, p1, 0) {
        lemma_replace_order_independent_head(t, k1, v1, k2, v2);
    } else if match_at(t, p2, 0) {
        lemma_replace_order_independent_head(t, k2, v2, k1, v1);
    } else if t.len() >= 2 && t[0] == '{' && t[1] == '{' {
        assert(t[0] == '{' && t[0int + 1] == '{');
        assert(exists|k: Seq<char>| brace_free(k) && #[trigger] match_at(t, placeholder(k), 0));
        let k = choose|k: Seq<char>| brace_free(k) && #[trigger] match_at(t, placeholder(k), 0);
        assert(brace_free(k) && match_at(t, placeholder(k), 0));
        let pk = placeholder(k);
        lemma_placeholder_chars(k);
        let n = pk.len() as int;
        assert(t.take(n) =~= pk);
        assert forall|m: int| #![trigger pk[m]] 0 <= m < n implies t[m] == pk[m] by {
            assert(t.subrange(0, n)[m] == t[m]);
        }
        assert forall|j: int| 0 <= j < n implies !match_at(t, p1, j) by {
            if match_at(t, p1, j) {
                if j == 0 {
                    lemma_same_start(t, k, k1, 0);
                } else {
                    lemma_no_overlap(t, k, k1, 0, j);
                }
            }
        }
        assert forall|j: int| 0 <= j < n implies !match_at(t, p2, j) by {
            if match_at(t, p2, j) {
                if j == 0 {
                    lemma_same_start(t, k, k2, 0);
                } else {
                    lemma_no_overlap(t, k, k2, 0, j);
                }
            }
        }
        lemma_replace_split(t, p1, v1, n);
        lemma_replace_split(t, p2, v2, n);
        let y1 = spec_replace(t.skip(n), p1, v1);
        let y2 = spec_replace(t.skip(n), p2, v2);
        assert(spec_replace(t, p1, v1) == pk + y1);
        assert(spec_replace(t, p2, v2) == pk + y2);
        assert((pk + y1).subrange(0, n) =~= pk);
        assert((pk + y2).subrange(0, n) =~= pk);
        lemma_replace_step_over_foreign(pk + y1, k, k2, t);
        lemma_replace_step_over_foreign(pk + y2, k, k1, t);
        lemma_replace_split(pk + y1, p2, v2, n);
        lemma_replace_split(pk + y2, p1, v1, n);
        assert((pk + y1).take(n) =~= pk);
        assert((pk + y1).skip(n) =~= y1);
        assert((pk + y2).take(n) =~= pk);
        assert((pk + y2).skip(n) =~= y2);
        lemma_template_ok_skip(t, n);
        lemma_replace_order_independent(t.skip(n), k1, v1, k2, v2);
        assert(spec_replace(pk + y1, p2, v2) == pk + spec_replace(y1, p2, v2));
        assert(spec_replace(pk + y2, p1, v1) == pk + spec_replace(y2, p1, v1));
    } else {
        let h = t.take(1);
        assert(!match_at(t, p1, 0));
        assert(!match_at(t, p2, 0));
        assert forall|j: int| 0 <= j < 1 implies !match_at(t, p1, j) by {}
        assert forall|j: int| 0 <= j < 1 implies !match_at(t, p2, j) by {}
        lemma_replace_split(t, p1, v1, 1);
        lemma_replace_split(t, p2, v2, 1);
        let y1 = spec_replace(t.skip(1), p1, v1);
        let y2 = spec_replace(t.skip(1), p2, v2);
        assert(spec_replace(t, p1, v1) == h + y1);
        assert(spec_replace(t, p2, v2) == h + y2);
        lemma_replace_step_over_char(t, k1, v1, k2);
        lemma_replace_step_over_char(t, k2, v2, k1);
        lemma_replace_split(h + y1, p2, v2, 1);
        lemma_replace_split(h + y2, p1, v1, 1);
        assert((h + y1).take(1) =~= h);
        assert((h + y1).skip(1) =~= y1);
        assert((h + y2).take(1) =~= h);
        assert((h + y2).skip(1) =~= y2);
        lemma_template_ok_skip(t, 1);
        lemma_replace_order_independent(t.skip(1), k1, v1, k2, v2);
        assert(spec_replace(h + y1, p2, v2) == h + spec_replace(y1, p2, v2));
        assert(spec_replace(h + y2, p1, v1) == h + spec_replace(y2, p1, v1));
    }
}

/// The head case of order-independence: the first key's placeholder matches
/// at the very start of the template.
proof fn lemma_replace_order_independent_head(
    t: Seq<char>,
    k1: Seq<char>,
    v1: Seq<char>,
    k2: Seq<char>,
    v2: Seq<char>,
)
    requires
        k1 != k2,
        brace_free(k1),
        brace_free(k2),
        brace_free(v1),
        brace_free(v2),
        template_ok(t),
        match_at(t, placeholder(k1), 0),
    ensures
        spec_replace(spec_replace(t, placeholder(k1), v1), placeholder(k2), v2) == spec_replace(
            spec_replace(t, placeholder(k2), v2),
            placeholder(k1),
            v1,
        ),
    decreases t.len(), 0int,
{
    let p1 = placeholder(k1);
    let p2 = placeholder(k2);
    lemma_placeholder_chars(k1);
    lemma_placeholder_chars(k2);
    let n1 = p1.len() as int;
    let y1 = spec_replace(t.skip(n1), p1, v1);
    let y2 = spec_replace(t.skip(n1), p2, v2);
    assert(spec_replace(t, p1, v1) == v1 + y1);
    assert forall|j: int| 0 <= j < v1.len() implies !match_at(v1 + y1, p2, j) by {
        if match_at(v1 + y1, p2, j) {
            assert((v1 + y1).subrange(j, j + p2.len())[0] == (v1 + y1)[j]);
            assert(v1[j] == '{');
        }
    }
    lemma_replace_split(v1 + y1, p2, v2, v1.len() as int);
    assert((v1 + y1).take(v1.len() as int) =~= v1);
    assert((v1 + y1).skip(v1.len() as int) =~= y1);
    assert forall|j: int| 0 <= j < n1 implies !match_at(t, p2, j) by {
        if match_at(t, p2, j) {
            if j == 0 {
                lemma_same_start(t, k1, k2, 0);
            } else {
                lemma_no_overlap(t, k1, k2, 0, j);
            }
        }
    }
    lemma_replace_split(t, p2, v2, n1);
    assert(t.take(n1) =~= p1);
    assert(spec_replace(t, p2, v2) == p1 + y2);
    assert((p1 + y2).subrange(0, n1) =~= p1);
    assert((p1 + y2).skip(n1) =~= y2);
    assert(spec_replace(p1 + y2, p1, v1) == v1 + spec_replace(y2, p1, v1));
    lemma_template_ok_skip(t, n1);
    lemma_replace_order_independent(t.skip(n1), k1, v1, k2, v2);
}

/// In a text that begins with a whole foreign placeholder `{{k}}`, a
/// placeholder of another brace-free key cannot match before its end.
proof fn lemma_replace_step_over_foreign(s: Seq<char>, k: Seq<char>, k_next: Seq<char>, t: Seq<char>)
    requires
        brace_free(k),
        brace_free(k_next),
        s.len() >= placeholder(k).len(),
        s.subrange(0, placeholder(k).len() as int) == placeholder(k),
        match_at(t, placeholder(k), 0),
        !match_at(t, placeholder(k_next), 0),
    ensures
        forall|j: int| 0 <= j < placeholder(k).len() ==> !match_at(s, placeholder(k_next), j),
{
    lemma_placeholder_chars(k);
    lemma_placeholder_chars(k_next);
    let pk = placeholder(k);
    let pn = placeholder(k_next);
    let n = pk.len() as int;
    assert forall|m: int| #![trigger pk[m]] 0 <= m < n implies s[m] == pk[m] by {
        assert(s.subrange(0, n)[m] == s[m]);
    }
    assert forall|j: int| 0 <= j < n implies !match_at(s, pn, j) by {
        if match_at(s, pn, j) {
            assert(s.subrange(j, j + pn.len())[0] == s[j]);
            assert(s[j] == '{');
            if j == 0 {
                assert(match_at(s, pk, 0));
                lemma_same_start(s, k, k_next, 0);
                assert(placeholder(k_next) == pk);
                assert(match_at(t, placeholder(k_next), 0));
            } else if j == 1 {
                assert(s.subrange(j, j + pn.len())[1] == s[j + 1]);
                assert(s[2] == '{');
                if k.len() > 0 {
                    assert(pk[2] == k[0]);
                } else {
                    assert(pk[2] == '}');
                }
            } else {
                if 2 <= j < 2 + k.len() {
                    assert(pk[j] == k[j - 2]);
                } else {
                    assert(pk[j] == '}');
                }
            }
        }
    }
}

/// In a text built from one non-opening head character and the replacement
/// of the tail, neither key's placeholder can match at the very front.
proof fn lemma_replace_step_over_char(
    t: Seq<char>,
    k_done: Seq<char>,
    v_done: Seq<char>,
    k_next: Seq<char>,
)
    requires
        brace_free(k_done),
        brace_free(k_next),
        t.len() >= 1,
        !match_at(t, placeholder(k_done), 0),
        !(t.len() >= 2 && t[0] == '{' && t[1] == '{'),
    ensures
        !match_at(
            t.take(1) + spec_replace(t.skip(1), placeholder(k_done), v_done),
            placeholder(k_next),
            0,
        ),
{
    lemma_placeholder_chars(k_done);
    lemma_placeholder_chars(k_next);
    let pd = placeholder(k_done);
    let pn = placeholder(k_next);
    let y = spec_replace(t.skip(1), pd, v_done);
    let s = t.take(1) + y;
    if match_at(s, pn, 0) {
        assert(s.subrange(0, pn.len() as int)[0] == s[0]);
        assert(s[0] == '{');
        assert(t[0] == '{');
        assert(s.len() >= pn.len() >= 4);
        assert(y.len() >= 3);
        let s1 = t.skip(1);
        assert(s1.len() > 0) by {
            if s1.len() == 0 {
                assert(y.len() == 0);
            }
        }
        assert(t.len() >= 2);
        assert(t[1] != '{');
        assert(s1[0] == t[1]);
        if 0 < pd.len() <= s1.len() && s1.subrange(0, pd.len() as int) == pd {
            assert(s1.subrange(0, pd.len() as int)[0] == s1[0]);
            assert(s1[0] == '{');
            assert(false);
        }
        assert(y == s1.subrange(0, 1) + spec_replace(s1.skip(1), pd, v_done));
        assert(y[0] == s1[0]);
        assert(s.subrange(0, pn.len() as int)[1] == s[1]);
        assert(s[1] == y[0]);
        assert(s[1] == '{');
        assert(false);
    }
}

/// Substituting two distinct keys as a two-entry table gives the same text
/// in either entry order, under the same conditions as
/// [`lemma_replace_order_independent`].
pub proof fn lemma_subst_pair_order_independent(
    t: Seq<char>,
    k1: Seq<char>,
    v1: Seq<char>,
    k2: Seq<char>,
    v2: Seq<char>,
)
    requires
        k1 != k2,
        brace_free(k1),
        brace_free(k2),
        brace_free(v1),
        brace_free(v2),
        template_ok(t),
    ensures
        spec_subst(t, seq![(k1, v1), (k2, v2)]) == spec_subst(t, seq![(k2, v2), (k1, v1)]),
{
    let fwd = seq![(k1, v1), (k2, v2)];
    let bwd = seq![(k2, v2), (k1, v1)];
    let empty = Seq::<(Seq<char>, Seq<char>)>::empty();
    assert(fwd.skip(1) =~= seq![(k2, v2)]);
    assert(bwd.skip(1) =~= seq![(k1, v1)]);
    assert(seq![(k2, v2)].skip(1) =~= empty);
    assert(seq![(k1, v1)].skip(1) =~= empty);
    let r1 = spec_replace(t, placeholder(k1), v1);
    let r12 = spec_replace(r1, placeholder(k2), v2);
    let r2 = spec_replace(t, placeholder(k2), v2);
    let r21 = spec_replace(r2, placeholder(k1), v1);
    assert(spec_subst(t, fwd) == spec_subst(r1, seq![(k2, v2)]));
    assert(spec_subst(r1, seq![(k2, v2)]) == spec_subst(r12, empty));
    assert(spec_subst(t, bwd) == spec_subst(r2, seq![(k1, v1)]));
    assert(spec_subst(r2, seq![(k1, v1)]) == spec_subst(r21, empty));
    lemma_replace_order_independent(t, k1, v1, k2, v2);
}

/// Placeholders that no table entry resolves pass through verbatim: a
/// template in which none of the table's placeholders occurs comes back
/// unchanged from substitution.
pub proof fn lemma_subst_unresolved(t: Seq<char>, table: Seq<(Seq<char>, Seq<char>)>)
    requires
        forall|i: int|
            0 <= i < table.len() ==> !occurs(t, placeholder(#[trigger] table[i].0)),
    ensures
        spec_subst(t, table) == t,
    decreases table.len(),
{
    if table.len() == 0 {
    } else {
        lemma_replace_no_match(t, placeholder(table[0].0), table[0].1);
        assert forall|i: int|
            0 <= i < table.skip(1).len() implies !occurs(
            t,
            placeholder(#[trigger] table.skip(1)[i].0),
        ) by {
            assert(table.skip(1)[i] == table[i + 1]);
        }
        lemma_subst_unresolved(t, table.skip(1));
    }
}

/// Formatting is deterministic: the rendered text is a pure function of the
/// formatter, sink, level, message, timestamp and argument table, so two
/// renderings of the same call at the same instant are identical.
pub proof fn lemma_format_deterministic(
    f: Formatter,
    output: Output,
    level: Level,
    message: Seq<char>,
    ts1: Seq<char>,
    ts2: Seq<char>,
    extra: Seq<(Seq<char>, Seq<char>)>,
)
    requires
        ts1 == ts2,
    ensures
        spec_format(f, output, level, message, ts1, extra) == spec_format(
            f,
            output,
            level,
            message,
            ts2,
            extra,
        ),
{
}

/// No placeholder can match inside brace-free text.
proof fn lemma_brace_free_no_match(t: Seq<char>, k: Seq<char>)
    requires
        brace_free(t),
    ensures
        !occurs(t, placeholder(k)),
{
    lemma_placeholder_chars(k);
    assert forall|j: int| !match_at(t, placeholder(k), j) by {
        if match_at(t, placeholder(k), j) {
            assert(t.subrange(j, j + placeholder(k).len())[0] == t[j]);
            assert(t[j] == '{');
        }
    }
}

/// Brace-free text passes through substitution unchanged, whatever the
/// table: without braces it holds no placeholder any entry could resolve.
pub proof fn lemma_subst_brace_free(t: Seq<char>, table: Seq<(Seq<char>, Seq<char>)>)
    requires
        brace_free(t),
    ensures
        spec_subst(t, table) == t,
    decreases table.len(),
{
    if table.len() > 0 {
        lemma_brace_free_no_match(t, table[0].0);
        lemma_replace_no_match(t, placeholder(table[0].0), table[0].1);
        lemma_subst_brace_free(t, table.skip(1));
    }
}

/// Every plain level label is brace-free.
pub proof fn lemma_plain_label_brace_free(level: Level)
    ensures
        brace_free(spec_plain_label(level)),
{
    reveal_strlit("DEBUG");
    reveal_strlit("INFO");
    reveal_strlit("WARNING");
    reveal_strlit("ERROR");
    reveal_strlit("FATAL");
    reveal_strlit("MESSAGE");
}

/// The plain level label survives every further substitution pass unchanged,
/// so the label a file sink's table inserts reaches the output without ANSI
/// codes around it.
pub proof fn lemma_plain_label_survives(level: Level, table: Seq<(Seq<char>, Seq<char>)>)
    ensures
        spec_subst(spec_plain_label(level), table) == spec_plain_label(level),
{
    lemma_plain_label_brace_free(level);
    lemma_subst_brace_free(spec_plain_label(level), table);
}

/// Brace-free texts concatenate to brace-free text.
proof fn lemma_brace_free_concat(a: Seq<char>, b: Seq<char>)
    requires
        brace_free(a),
        brace_free(b),
    ensures
        brace_free(a + b),
{
    assert forall|i: int| 0 <= i < (a + b).len() implies (a + b)[i] != '{' && (a + b)[i]
        != '}' by {
        if i < a.len() {
            assert((a + b)[i] == a[i]);
        } else {
            assert((a + b)[i] == b[i - a.len()]);
        }
    }
}

/// Replacing another brace-free key leaves a leading placeholder with a
/// brace-free tail untouched.
proof fn lemma_replace_other_key(k: Seq<char>, mid: Seq<char>, k2: Seq<char>, v: Seq<char>)
    requires
        brace_free(k),
        brace_free(k2),
        brace_free(mid),
        k != k2,
    ensures
        spec_replace(placeholder(k) + mid, placeholder(k2), v) == placeholder(k) + mid,
{
    let t = placeholder(k) + mid;
    lemma_placeholder_chars(k);
    lemma_placeholder_chars(k2);
    assert(t.subrange(0, placeholder(k).len() as int) =~= placeholder(k));
    assert(match_at(t, placeholder(k), 0));
    assert forall|j: int| !match_at(t, placeholder(k2), j) by {
        if match_at(t, placeholder(k2), j) {
            assert(t.subrange(j, j + placeholder(k2).len())[0] == t[j]);
            assert(t[j] == '{');
            if j == 0 {
                lemma_same_start(t, k, k2, 0);
            } else if j < placeholder(k).len() {
                lemma_no_overlap(t, k, k2, 0, j);
            } else {
                assert(t[j] == mid[j - placeholder(k).len()]);
            }
        }
    }
    lemma_replace_no_match(t, placeholder(k2), v);
}

/// Replacing the leading placeholder's own key substitutes its value and
/// leaves the brace-free tail.
proof fn lemma_replace_own_key(k: Seq<char>, mid: Seq<char>, v: Seq<char>)
    requires
        brace_free(k),
        brace_free(mid),
    ensures
        spec_replace(placeholder(k) + mid, placeholder(k), v) == v + mid,
{
    let t = placeholder(k) + mid;
    lemma_placeholder_chars(k);
    assert(t.subrange(0, placeholder(k).len() as int) =~= placeholder(k));
    assert(t.skip(placeholder(k).len() as int) =~= mid);
    lemma_brace_free_no_match(mid, k);
    lemma_replace_no_match(mid, placeholder(k), v);
}

/// Replacing the trailing reset placeholder in `{{c}}mid{{e}}` substitutes
/// only it: the leading placeholder of the other key and the brace-free
/// middle stay.
proof fn lemma_replace_trailing_key(c: Seq<char>, mid: Seq<char>, e: Seq<char>, v: Seq<char>)
    requires
        brace_free(c),
        brace_free(mid),
        brace_free(e),
        c != e,
    ensures
        spec_replace(placeholder(c) + mid + placeholder(e), placeholder(e), v) == placeholder(c) + (
        mid + v),
{
    let t = placeholder(c) + mid + placeholder(e);
    lemma_placeholder_chars(c);
    lemma_placeholder_chars(e);
    let n = placeholder(c).len() as int + mid.len() as int;
    assert(t.subrange(0, placeholder(c).len() as int) =~= placeholder(c));
    assert(match_at(t, placeholder(c), 0));
    assert forall|j: int| 0 <= j < n implies !match_at(t, placeholder(e), j) by {
        if match_at(t, placeholder(e), j) {
            assert(t.subrange(j, j + placeholder(e).len())[0] == t[j]);
            assert(t[j] == '{');
            if j == 0 {
                lemma_same_start(t, c, e, 0);
            } else if j < placeholder(c).len() {
                lemma_no_overlap(t, c, e, 0, j);
            } else {
                assert(t[j] == mid[j - placeholder(c).len()]);
            }
        }
    }
    lemma_replace_split(t, placeholder(e), v, n);
    assert(t.take(n) =~= placeholder(c) + mid);
    assert(t.skip(n) =~= placeholder(e));
    assert(placeholder(e).subrange(0, placeholder(e).len() as int) =~= placeholder(e));
    assert(placeholder(e).skip(placeholder(e).len() as int) =~= Seq::<char>::empty());
    assert(spec_replace(placeholder(e), placeholder(e), v) == v + spec_replace(
        Seq::<char>::empty(),
        placeholder(e),
        v,
    ));
    assert(v + Seq::<char>::empty() =~= v);
    assert((placeholder(c) + mid) + v =~= placeholder(c) + (mid + v));
}

/// Substituting a table into a leading placeholder with a brace-free tail:
/// entries of other brace-free keys pass it by, the entry bearing the key
/// replaces it, and nothing later touches the brace-free result.
proof fn lemma_subst_single_placeholder(
    k: Seq<char>,
    mid: Seq<char>,
    table: Seq<(Seq<char>, Seq<char>)>,
    m: int,
)
    requires
        brace_free(k),
        brace_free(mid),
        0 <= m < table.len(),
        table[m].0 == k,
        brace_free(table[m].1),
        forall|i: int| #![trigger table[i]] 0 <= i < m ==> table[i].0 != k && brace_free(
            table[i].0,
        ),
    ensures
        spec_subst(placeholder(k) + mid, table) == table[m].1 + mid,
    decreases m,
{
    if m == 0 {
        lemma_replace_own_key(k, mid, table[0].1);
        lemma_brace_free_concat(table[0].1, mid);
        lemma_subst_brace_free(table[0].1 + mid, table.skip(1));
    } else {
        lemma_replace_other_key(k, mid, table[0].0, table[0].1);
        assert forall|i: int| #![trigger table.skip(1)[i]] 0 <= i < m - 1 implies table.skip(
            1,
        )[i].0 != k && brace_free(table.skip(1)[i].0) by {
            assert(table.skip(1)[i] == table[i + 1]);
        }
        assert(table.skip(1)[m - 1] == table[m]);
        lemma_subst_single_placeholder(k, mid, table.skip(1), m - 1);
    }
}

/// The palette entries the colored level labels lean on: the reset entry
/// comes first, each color entry carries its ANSI code, and no earlier key
/// collides with it.
proof fn lemma_palette_key_facts()
    ensures
        spec_palette().len() == 37,
        spec_palette()[0] == ("end"@, "\x1b[0m"@),
        spec_palette()[6] == ("color.red"@, "\x1b[31m"@),
        spec_palette()[8] == ("color.yellow"@, "\x1b[33m"@),
        spec_palette()[9] == ("color.blue"@, "\x1b[34m"@),
        forall|i: int| 1 <= i < 9 ==> #[trigger] spec_palette()[i].0 != "color.blue"@,
        forall|i: int| 1 <= i < 8 ==> #[trigger] spec_palette()[i].0 != "color.yellow"@,
        forall|i: int| 1 <= i < 6 ==> #[trigger] spec_palette()[i].0 != "color.red"@,
        forall|i: int| 1 <= i < 10 ==> brace_free(#[trigger] spec_palette()[i].0),
        brace_free("color.red"@),
        brace_free("color.yellow"@),
        brace_free("color.blue"@),
        brace_free("end"@),
        brace_free("\x1b[0m"@),
        brace_free("\x1b[31m"@),
        brace_free("\x1b[33m"@),
        brace_free("\x1b[34m"@),
        "color.red"@ != "end"@,
        "color.yellow"@ != "end"@,
        "color.blue"@ != "end"@,
{
    reveal_strlit("end");
    reveal_strlit("bold");
    reveal_strlit("italic");
    reveal_strlit("underline");
    reveal_strlit("overline");
    reveal_strlit("color.black");
    reveal_strlit("color.red");
    reveal_strlit("color.green");
    reveal_strlit("color.yellow");
    reveal_strlit("color.blue");
    reveal_strlit("\x1b[0m");
    reveal_strlit("\x1b[31m");
    reveal_strlit("\x1b[33m");
    reveal_strlit("\x1b[34m");
    assert("underline"@ != "color.red"@) by {
        assert("underline"@[0] == 'u');
        assert("color.red"@[0] == 'c');
    }
    assert("bold"@.len() == 4 && "italic"@.len() == 6 && "underline"@.len() == 9
        && "overline"@.len() == 8 && "color.black"@.len() == 11 && "color.red"@.len() == 9
        && "color.green"@.len() == 11 && "color.yellow"@.len() == 12 && "color.blue"@.len() == 10
        && "end"@.len() == 3);
    assert forall|i: int| 1 <= i < 9 implies #[trigger] spec_palette()[i].0
        != "color.blue"@ by {
        assert(spec_palette()[i].0.len() != 10);
    }
    assert forall|i: int| 1 <= i < 8 implies #[trigger] spec_palette()[i].0
        != "color.yellow"@ by {
        assert(spec_palette()[i].0.len() != 12);
    }
    assert forall|i: int| 1 <= i < 6 implies #[trigger] spec_palette()[i].0
        != "color.red"@ by {
        if i != 3 {
            assert(spec_palette()[i].0.len() != 9);
        }
    }
}

/// The color-wrapped level label once the palette has been applied: the
/// ANSI color code, the label text, and the ANSI reset sequence; `DEBUG`
/// stays unstyled.
pub open spec fn spec_resolved_colored_label(level: Level) -> Seq<char> {
    match level {
        Level::DEBUG => "DEBUG"@,
        Level::INFO => "\x1b[34mINFO\x1b[0m"@,
        Level::WARN => "\x1b[33mWARNING\x1b[0m"@,
        Level::ERROR => "\x1b[31mERROR\x1b[0m"@,
        Level::FATAL => "\x1b[31mFATAL\x1b[0m"@,
        Level::MESSAGE => "\x1b[34mMESSAGE\x1b[0m"@,
    }
}

/// Substituting the palette into a colored level entry `{{c}}label{{end}}`
/// yields the ANSI color code, the label, and the reset sequence.
proof fn lemma_palette_resolves_colored(c: Seq<char>, label: Seq<char>, m: int)
    requires
        brace_free(label),
        1 <= m < 10,
        spec_palette()[m].0 == c,
        brace_free(c),
        brace_free(spec_palette()[m].1),
        c != "end"@,
        forall|i: int| 1 <= i < m ==> #[trigger] spec_palette()[i].0 != c,
        forall|i: int| 1 <= i < 10 ==> brace_free(#[trigger] spec_palette()[i].0),
    ensures
        spec_subst(placeholder(c) + label + placeholder("end"@), spec_palette())
            == spec_palette()[m].1 + (label + "\x1b[0m"@),
{
    lemma_palette_key_facts();
    let pal = spec_palette();
    let t0 = placeholder(c) + label + placeholder("end"@);
    lemma_replace_trailing_key(c, label, "end"@, "\x1b[0m"@);
    let mid = label + "\x1b[0m"@;
    assert(spec_subst(t0, pal) == spec_subst(placeholder(c) + mid, pal.skip(1)));
    lemma_brace_free_concat(label, "\x1b[0m"@);
    assert(pal.skip(1)[m - 1] == pal[m]);
    assert forall|i: int| #![trigger pal.skip(1)[i]] 0 <= i < m - 1 implies pal.skip(1)[i].0 != c
        && brace_free(pal.skip(1)[i].0) by {
        assert(pal.skip(1)[i] == pal[i + 1]);
    }
    lemma_subst_single_placeholder(c, mid, pal.skip(1), m - 1);
}

/// Substituting the palette into the colored level entry yields exactly the
/// ANSI-wrapped label, closed by the reset sequence for every level but
/// `DEBUG`: the colored console labels are the documented escape sequences.
pub proof fn lemma_colored_label_resolves(level: Level)
    ensures
        spec_subst(spec_colored_label(level), spec_palette()) == spec_resolved_colored_label(
            level,
        ),
{
    lemma_palette_key_facts();
    reveal_strlit("{{");
    reveal_strlit("}}");
    match level {
        Level::DEBUG => {
            reveal_strlit("DEBUG");
            assert(brace_free("DEBUG"@));
            lemma_subst_brace_free("DEBUG"@, spec_palette());
        },
        Level::INFO => {
            reveal_strlit("{{color.blue}}INFO{{end}}");
            reveal_strlit("INFO");
            reveal_strlit("color.blue");
            reveal_strlit("end");
            reveal_strlit("\x1b[34mINFO\x1b[0m");
            reveal_strlit("\x1b[34m");
            reveal_strlit("\x1b[0m");
            assert(brace_free("INFO"@));
            assert(spec_colored_label(Level::INFO) =~= placeholder("color.blue"@) + "INFO"@
                + placeholder("end"@));
            lemma_palette_resolves_colored("color.blue"@, "INFO"@, 9);
            assert("\x1b[34m"@ + ("INFO"@ + "\x1b[0m"@) =~= "\x1b[34mINFO\x1b[0m"@);
        },
        Level::WARN => {
            reveal_strlit("{{color.yellow}}WARNING{{end}}");
            reveal_strlit("WARNING");
            reveal_strlit("color.yellow");
            reveal_strlit("end");
            reveal_strlit("\x1b[33mWARNING\x1b[0m");
            reveal_strlit("\x1b[33m");
            reveal_strlit("\x1b[0m");
            assert(brace_free("WARNING"@));
            assert(spec_colored_label(Level::WARN) =~= placeholder("color.yellow"@) + "WARNING"@
                + placeholder("end"@));
            lemma_palette_resolves_colored("color.yellow"@, "WARNING"@, 8);
            assert("\x1b[33m"@ + ("WARNING"@ + "\x1b[0m"@) =~= "\x1b[33mWARNING\x1b[0m"@);
        },
        Level::ERROR => {
            reveal_strlit("{{color.red}}ERROR{{end}}");
            reveal_strlit("ERROR");
            reveal_strlit("color.red");
            reveal_strlit("end");
            reveal_strlit("\x1b[31mERROR\x1b[0m");
            reveal_strlit("\x1b[31m");
            reveal_strlit("\x1b[0m");
            assert(brace_free("ERROR"@));
            assert(spec_colored_label(Level::ERROR) =~= placeholder("color.red"@) + "ERROR"@
                + placeholder("end"@));
            lemma_palette_resolves_colored("color.red"@, "ERROR"@, 6);
            assert("\x1b[31m"@ + ("ERROR"@ + "\x1b[0m"@) =~= "\x1b[31mERROR\x1b[0m"@);
        },
        Level::FATAL => {
            reveal_strlit("{{color.red}}FATAL{{end}}");
            reveal_strlit("FATAL");
            reveal_strlit("color.red");
            reveal_strlit("end");
            reveal_strlit("\x1b[31mFATAL\x1b[0m");
            reveal_strlit("\x1b[31m");
            reveal_strlit("\x1b[0m");
            assert(brace_free("FATAL"@));
            assert(spec_colored_label(Level::FATAL) =~= placeholder("color.red"@) + "FATAL"@
                + placeholder("end"@));
            lemma_palette_resolves_colored("color.red"@, "FATAL"@, 6);
            assert("\x1b[31m"@ + ("FATAL"@ + "\x1b[0m"@) =~= "\x1b[31mFATAL\x1b[0m"@);
        },
        Level::MESSAGE => {
            reveal_strlit("{{color.blue}}MESSAGE{{end}}");
            reveal_strlit("MESSAGE");
            reveal_strlit("color.blue");
            reveal_strlit("end");
            reveal_strlit("\x1b[34mMESSAGE\x1b[0m");
            reveal_strlit("\x1b[34m");
            reveal_strlit("\x1b[0m");
            assert(brace_free("MESSAGE"@));
            assert(spec_colored_label(Level::MESSAGE) =~= placeholder("color.blue"@) + "MESSAGE"@
                + placeholder("end"@));
            lemma_palette_resolves_colored("color.blue"@, "MESSAGE"@, 9);
            assert("\x1b[34m"@ + ("MESSAGE"@ + "\x1b[0m"@) =~= "\x1b[34mMESSAGE\x1b[0m"@);
        },
    }
}

/// On console sinks the substitution table carries, among the reserved
/// entries that precede every caller entry, the level entry with the
/// color-wrapped label.
pub proof fn lemma_console_table_level(
    level: Level,
    message: Seq<char>,
    timestamp: Seq<char>,
    extra: Seq<(Seq<char>, Seq<char>)>,
)
    ensures
        spec_table(level, true, message, timestamp, extra)[2] == (
            "level"@,
            spec_colored_label(level),
        ),
{
}

/// On every sink that is not a console, the substitution table carries,
/// among the reserved entries that precede every caller entry, the level
/// entry with the plain, uncolored label.
pub proof fn lemma_plain_table_level(
    level: Level,
    message: Seq<char>,
    timestamp: Seq<char>,
    extra: Seq<(Seq<char>, Seq<char>)>,
)
    ensures
        spec_table(level, false, message, timestamp, extra)[2] == (
            "level"@,
            spec_plain_label(level),
        ),
{
}

} // verus!
