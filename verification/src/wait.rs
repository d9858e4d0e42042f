use vstd::prelude::*;

use crate::text::{
    chars_of, char_index_exec, contains_seq, find_exec, lemma_char_index_from_found,
    lemma_contains_extend, lemma_find_contains, sub_chars, trim, trim_range,
};

verus! {

/// `[a, b)` is one of the pieces that `s` splits into at `sep`
/// (as `str::split` yields them).
pub open spec fn is_piece(s: Seq<char>, sep: char, a: int, b: int) -> bool {
    &&& 0 <= a <= b <= s.len()
    &&& (a == 0 || s[a - 1] == sep)
    &&& (b == s.len() || s[b] == sep)
    &&& forall|k: int| a <= k < b ==> s[k] != sep
}

/// The alternative `pattern[a..b]`, trimmed, is non-empty and occurs in `output`.
pub open spec fn alternative_seen(pattern: Seq<char>, output: Seq<char>, a: int, b: int) -> bool {
    let alt = trim(pattern.subrange(a, b));
    alt.len() > 0 && contains_seq(output, alt)
}

/// A wait pattern lists alternatives separated by `|`; it has appeared in the
/// output when some alternative, trimmed and non-empty, occurs in it.
pub open spec fn wait_appeared(pattern: Seq<char>, output: Seq<char>) -> bool {
    exists|a: int, b: int| is_piece(pattern, '|', a, b) && alternative_seen(pattern, output, a, b)
}

/// Whether the wait pattern has appeared in the output.
pub fn wait_appeared_chars(pattern: &Vec<char>, output: &Vec<char>) -> (r: bool)
    ensures
        r == wait_appeared(pattern@, output@),
{
    let mut start: usize = 0;
    loop
        invariant
            start <= pattern.len(),
            start == 0 || pattern@[start - 1] == '|',
            forall|a: int, b: int|
                is_piece(pattern@, '|', a, b) && a < start ==> !alternative_seen(
                    pattern@,
                    output@,
                    a,
                    b,
                ),
        decreases pattern.len() - start,
    {
        let end = match char_index_exec(pattern, '|', start) {
            Some(e) => e,
            None => pattern.len(),
        };
        proof {
            lemma_char_index_from_found(pattern@, '|', start as nat);
            assert(is_piece(pattern@, '|', start as int, end as int));
            assert forall|b: int| is_piece(pattern@, '|', start as int, b) implies b == end by {
                if b < end {
                    assert(pattern@[b] == '|');
                } else if b > end {
                    assert(pattern@[end as int] == '|');
                }
            }
        }
        let (lo, hi) = trim_range(pattern, start, end);
        if lo < hi {
            let alt = sub_chars(pattern, lo, hi);
            if find_exec(output, &alt, 0).is_some() {
                proof {
                    lemma_find_contains(output@, alt@);
                    assert(alternative_seen(pattern@, output@, start as int, end as int));
                }
                return true;
            }
            proof {
                lemma_find_contains(output@, alt@);
            }
        }
        if end == pattern.len() {
            proof {
                assert forall|a: int, b: int|
                    is_piece(pattern@, '|', a, b) implies !alternative_seen(
                    pattern@,
                    output@,
                    a,
                    b,
                ) by {
                    if a > start {
                        assert(pattern@[a - 1] == '|');
                    }
                }
            }
            return false;
        }
        proof {
            assert forall|a: int, b: int|
                is_piece(pattern@, '|', a, b) && a < end + 1 implies !alternative_seen(
                pattern@,
                output@,
                a,
                b,
            ) by {
                if a > start {
                    assert(pattern@[a - 1] == '|');
                }
            }
        }
        start = end + 1;
    }
}

/// Whether `wait_pattern` has appeared in `output`: `wait_pattern` holds
/// alternatives separated by `|`, each trimmed of white space; an empty
/// alternative never matches, any other matches where it occurs in `output`.
pub fn check_wait_appeared(wait_pattern: &str, output: &str) -> (r: bool)
    ensures
        r == wait_appeared(wait_pattern@, output@),
{
    let p = chars_of(wait_pattern);
    let o = chars_of(output);
    wait_appeared_chars(&p, &o)
}

/// Once a wait pattern has appeared, it stays appeared however much more
/// output arrives.
pub proof fn law_wait_appeared_monotonic(pattern: Seq<char>, output: Seq<char>, more: Seq<char>)
    requires
        wait_appeared(pattern, output),
    ensures
        wait_appeared(pattern, output + more),
{
    let (a, b) = choose|a: int, b: int|
        is_piece(pattern, '|', a, b) && alternative_seen(pattern, output, a, b);
    lemma_contains_extend(output, more, trim(pattern.subrange(a, b)));
    assert(is_piece(pattern, '|', a, b) && alternative_seen(pattern, output + more, a, b));
}

/// A wait pattern that has appeared in some output has appeared in every
/// text that holds that output.
pub proof fn law_wait_appeared_within(pattern: Seq<char>, output: Seq<char>, text: Seq<char>)
    requires
        wait_appeared(pattern, output),
        contains_seq(text, output),
    ensures
        wait_appeared(pattern, text),
{
    let (a, b) = choose|a: int, b: int|
        is_piece(pattern, '|', a, b) && alternative_seen(pattern, output, a, b);
    let alt = trim(pattern.subrange(a, b));
    let i = choose|i: int| crate::text::occurs_at(output, alt, i);
    let j = choose|j: int| crate::text::occurs_at(text, output, j);
    assert(text.subrange(j + i, j + i + alt.len()) =~= output.subrange(i, i + alt.len())) by {
        assert forall|k: int| 0 <= k < alt.len() implies #[trigger] text.subrange(
            j + i,
            j + i + alt.len(),
        )[k] == output.subrange(i, i + alt.len())[k] by {
            assert(text.subrange(j, j + output.len())[i + k] == output[i + k]);
        }
    }
    assert(crate::text::occurs_at(text, alt, j + i));
    assert(is_piece(pattern, '|', a, b) && alternative_seen(pattern, text, a, b));
}

/// A pattern without `|` is a single alternative: it has appeared exactly
/// when, trimmed, it is non-empty and occurs in the output.
pub proof fn law_single_alternative(pattern: Seq<char>, output: Seq<char>)
    requires
        forall|k: int| 0 <= k < pattern.len() ==> pattern[k] != '|',
    ensures
        wait_appeared(pattern, output) <==> (trim(pattern).len() > 0 && contains_seq(
            output,
            trim(pattern),
        )),
{
    assert(pattern.subrange(0, pattern.len() as int) =~= pattern);
    assert(is_piece(pattern, '|', 0, pattern.len() as int));
    if wait_appeared(pattern, output) {
        let (a, b) = choose|a: int, b: int|
            is_piece(pattern, '|', a, b) && alternative_seen(pattern, output, a, b);
        if a > 0 {
            assert(pattern[a - 1] == '|');
        }
        if b < pattern.len() {
            assert(pattern[b] == '|');
        }
    }
}

/// `p1|p2` has appeared exactly when `p1` or `p2` has appeared: any one
/// alternative is enough.
pub proof fn law_alternatives(p1: Seq<char>, p2: Seq<char>, output: Seq<char>)
    ensures
        wait_appeared(p1 + seq!['|'] + p2, output) <==> (wait_appeared(p1, output)
            || wait_appeared(p2, output)),
{
    let s = p1 + seq!['|'] + p2;
    let n1 = p1.len() as int;
    assert(s[n1] == '|');
    if wait_appeared(s, output) {
        let (a, b) = choose|a: int, b: int|
            is_piece(s, '|', a, b) && alternative_seen(s, output, a, b);
        if b <= n1 {
            assert(s.subrange(a, b) =~= p1.subrange(a, b));
            if a > 0 {
                assert(s[a - 1] == p1[a - 1]);
            }
            if b < n1 {
                assert(s[b] == p1[b]);
            }
            assert forall|k: int| a <= k < b implies p1[k] != '|' by {
                assert(s[k] == p1[k]);
            }
            assert(is_piece(p1, '|', a, b) && alternative_seen(p1, output, a, b));
        } else if a > n1 {
            let a2 = a - n1 - 1;
            let b2 = b - n1 - 1;
            assert(s.subrange(a, b) =~= p2.subrange(a2, b2));
            assert(s[a - 1] == p2[a2 - 1] || a2 == 0);
            if b2 < p2.len() {
                assert(s[b] == p2[b2]);
            }
            assert forall|k: int| a2 <= k < b2 implies p2[k] != '|' by {
                assert(s[k + n1 + 1] == p2[k]);
            }
            assert(is_piece(p2, '|', a2, b2) && alternative_seen(p2, output, a2, b2));
        } else {
            assert(s[n1] != '|');
        }
    }
    if wait_appeared(p1, output) {
        let (a, b) = choose|a: int, b: int|
            is_piece(p1, '|', a, b) && alternative_seen(p1, output, a, b);
        assert(s.subrange(a, b) =~= p1.subrange(a, b));
        if a > 0 {
            assert(s[a - 1] == p1[a - 1]);
        }
        if b < n1 {
            assert(s[b] == p1[b]);
        }
        assert forall|k: int| a <= k < b implies s[k] != '|' by {
            assert(s[k] == p1[k]);
        }
        assert(is_piece(s, '|', a, b) && alternative_seen(s, output, a, b));
    }
    if wait_appeared(p2, output) {
        let (a, b) = choose|a: int, b: int|
            is_piece(p2, '|', a, b) && alternative_seen(p2, output, a, b);
        let a1 = a + n1 + 1;
        let b1 = b + n1 + 1;
        assert(s.subrange(a1, b1) =~= p2.subrange(a, b));
        if a > 0 {
            assert(s[a1 - 1] == p2[a - 1]);
        }
        if b < p2.len() {
            assert(s[b1] == p2[b]);
        }
        assert forall|k: int| a1 <= k < b1 implies s[k] != '|' by {
            assert(s[k] == p2[k - n1 - 1]);
        }
        assert(is_piece(s, '|', a1, b1) && alternative_seen(s, output, a1, b1));
    }
}

} // verus!
