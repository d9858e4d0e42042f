use vstd::prelude::*;
use vstd::string::StringExecFns;

use crate::session::texts;
use crate::text::{
    char_index_exec, char_index_from, chars_of, is_white_space, lemma_char_index_from_found,
    lemma_char_index_skip, string_of_range, sub_chars, trim, trim_range, trim_start,
    trim_start_from, white_space,
};

verus! {

// ---------------------------------------------------------------------------
// Splitting text into pieces.
// ---------------------------------------------------------------------------

/// The pieces of `s` between occurrences of `c` (as `str::split` yields them).
pub open spec fn split_on(s: Seq<char>, c: char) -> Seq<Seq<char>>
    decreases s.len(),
{
    match char_index_from(s, c, 0) {
        Some(i) => {
            proof {
                lemma_char_index_from_found(s, c, 0);
            }
            seq![s.take(i as int)] + split_on(s.skip(i + 1int), c)
        },
        None => seq![s],
    }
}

/// The first index at or after `from` that holds white space.
pub open spec fn white_space_from(s: Seq<char>, from: nat) -> Option<nat>
    decreases s.len() - from,
{
    if from >= s.len() {
        None
    } else if is_white_space(s[from as int]) {
        Some(from)
    } else {
        white_space_from(s, from + 1)
    }
}

pub proof fn lemma_white_space_from(s: Seq<char>, from: nat)
    ensures
        match white_space_from(s, from) {
            Some(i) => from <= i < s.len() && is_white_space(s[i as int]),
            None => true,
        },
    decreases s.len() - from,
{
    if from < s.len() && !is_white_space(s[from as int]) {
        lemma_white_space_from(s, from + 1);
    }
}

pub proof fn lemma_trim_start(s: Seq<char>)
    ensures
        trim_start(s).len() <= s.len(),
        trim_start(s).len() > 0 ==> !is_white_space(trim_start(s)[0]),
    decreases s.len(),
{
    if s.len() > 0 && is_white_space(s[0]) {
        lemma_trim_start(s.drop_first());
    }
}

/// The white-space separated words of `s` (as `str::split_whitespace`
/// yields them).
pub open spec fn words(s: Seq<char>) -> Seq<Seq<char>>
    decreases s.len(),
{
    let t = trim_start(s);
    if t.len() == 0 {
        seq![]
    } else {
        match white_space_from(t, 1) {
            Some(k) => {
                proof {
                    lemma_trim_start(s);
                    lemma_white_space_from(t, 1);
                }
                seq![t.take(k as int)] + words(t.skip(k as int))
            },
            None => seq![t],
        }
    }
}

/// The items of `s` that are not empty, in order.
pub open spec fn non_empty(s: Seq<Seq<char>>) -> Seq<Seq<char>>
    decreases s.len(),
{
    if s.len() == 0 {
        seq![]
    } else if s.last().len() > 0 {
        non_empty(s.drop_last()).push(s.last())
    } else {
        non_empty(s.drop_last())
    }
}

/// The items of `s` that `all` does not hold, in order.
pub open spec fn not_among(s: Seq<Seq<char>>, all: Seq<Seq<char>>) -> Seq<Seq<char>>
    decreases s.len(),
{
    if s.len() == 0 {
        seq![]
    } else if !all.contains(s.last()) {
        not_among(s.drop_last(), all).push(s.last())
    } else {
        not_among(s.drop_last(), all)
    }
}

/// The items of `s` without repeats, each where it first occurs.
pub open spec fn dedup(s: Seq<Seq<char>>) -> Seq<Seq<char>>
    decreases s.len(),
{
    if s.len() == 0 {
        seq![]
    } else if dedup(s.drop_last()).contains(s.last()) {
        dedup(s.drop_last())
    } else {
        dedup(s.drop_last()).push(s.last())
    }
}

/// Removing repeats leaves each item once, and exactly the items that were
/// there: no item occurs twice in `dedup(s)`, and it holds an item exactly
/// when `s` does.
pub proof fn law_dedup_unique(s: Seq<Seq<char>>)
    ensures
        dedup(s).no_duplicates(),
        forall|x: Seq<char>| dedup(s).contains(x) <==> s.contains(x),
    decreases s.len(),
{
    if s.len() > 0 {
        let init = s.drop_last();
        law_dedup_unique(init);
        let d = dedup(init);
        assert forall|x: Seq<char>| s.contains(x) <==> (init.contains(x) || x == s.last()) by {
            if s.contains(x) {
                let k = choose|k: int| 0 <= k < s.len() && s[k] == x;
                if k < s.len() - 1 {
                    assert(init[k] == x);
                }
            }
            if init.contains(x) {
                let k = choose|k: int| 0 <= k < init.len() && init[k] == x;
                assert(s[k] == x);
            }
            if x == s.last() {
                assert(s[s.len() - 1] == x);
            }
        }
        if !d.contains(s.last()) {
            let e = d.push(s.last());
            assert forall|x: Seq<char>| e.contains(x) <==> (d.contains(x) || x == s.last()) by {
                if e.contains(x) {
                    let k = choose|k: int| 0 <= k < e.len() && e[k] == x;
                    if k < d.len() {
                        assert(d[k] == x);
                    }
                }
                if d.contains(x) {
                    let k = choose|k: int| 0 <= k < d.len() && d[k] == x;
                    assert(e[k] == x);
                }
                if x == s.last() {
                    assert(e[d.len() as int] == x);
                }
            }
            assert forall|i: int, j: int| 0 <= i < e.len() && 0 <= j < e.len() && i != j implies e[i]
                != e[j] by {
                if i < d.len() && j < d.len() {
                    assert(e[i] == d[i] && e[j] == d[j]);
                } else if i < d.len() {
                    assert(e[i] == d[i]);
                    assert(d.contains(d[i]));
                } else if j < d.len() {
                    assert(e[j] == d[j]);
                    assert(d.contains(d[j]));
                }
            }
        }
    }
}

/// Each item trimmed.
pub open spec fn trim_all(s: Seq<Seq<char>>) -> Seq<Seq<char>> {
    s.map_values(|x: Seq<char>| trim(x))
}

/// The pieces joined with `sep` between neighbours (`join`).
pub open spec fn join_with(ls: Seq<Seq<char>>, sep: Seq<char>) -> Seq<char>
    decreases ls.len(),
{
    if ls.len() == 0 {
        seq![]
    } else if ls.len() == 1 {
        ls[0]
    } else {
        join_with(ls.drop_last(), sep) + sep + ls.last()
    }
}

// ---------------------------------------------------------------------------
// Ordering text.
// ---------------------------------------------------------------------------

/// `a` sorts before or equal to `b`, as strings compare in Rust: character
/// by character, a prefix first.
pub open spec fn lex_le(a: Seq<char>, b: Seq<char>) -> bool
    decreases a.len(),
{
    if a.len() == 0 {
        true
    } else if b.len() == 0 {
        false
    } else if a[0] != b[0] {
        a[0] < b[0]
    } else {
        lex_le(a.drop_first(), b.drop_first())
    }
}

pub proof fn lemma_lex_total(a: Seq<char>, b: Seq<char>)
    ensures
        lex_le(a, b) || lex_le(b, a),
    decreases a.len(),
{
    if a.len() > 0 && b.len() > 0 && a[0] == b[0] {
        lemma_lex_total(a.drop_first(), b.drop_first());
    }
}

/// In ascending order.
pub open spec fn is_sorted(s: Seq<Seq<char>>) -> bool {
    forall|i: int, j: int| 0 <= i < j < s.len() ==> lex_le(#[trigger] s[i], #[trigger] s[j])
}

/// `r` is `s` in ascending order.
pub open spec fn sorts(r: Seq<Seq<char>>, s: Seq<Seq<char>>) -> bool {
    is_sorted(r) && r.to_multiset() == s.to_multiset()
}

// ---------------------------------------------------------------------------
// Executable versions.
// ---------------------------------------------------------------------------

/// Whether `a` sorts before or equal to `b`.
pub fn lex_le_exec(a: &Vec<char>, b: &Vec<char>) -> (r: bool)
    ensures
        r == lex_le(a@, b@),
{
    let mut i: usize = 0;
    assert(a@.skip(0) =~= a@);
    assert(b@.skip(0) =~= b@);
    while i < a.len() && i < b.len() && a[i] == b[i]
        invariant
            i <= a.len(),
            i <= b.len(),
            lex_le(a@, b@) == lex_le(a@.skip(i as int), b@.skip(i as int)),
        decreases a.len() - i,
    {
        assert(a@.skip(i as int).drop_first() =~= a@.skip(i + 1));
        assert(b@.skip(i as int).drop_first() =~= b@.skip(i + 1));
        i = i + 1;
    }
    if i == a.len() {
        true
    } else if i == b.len() {
        false
    } else {
        assert(a@.skip(i as int)[0] == a@[i as int]);
        assert(b@.skip(i as int)[0] == b@[i as int]);
        a[i] < b[i]
    }
}

/// `strings` in ascending order.
pub fn sort_strings(strings: Vec<String>) -> (r: Vec<String>)
    ensures
        sorts(texts(r@), texts(strings@)),
{
    broadcast use vstd::seq_lib::to_multiset_insert;
    let mut r: Vec<String> = Vec::new();
    let mut i: usize = 0;
    assert(texts(strings@.take(0)) =~= texts(r@));
    while i < strings.len()
        invariant
            i <= strings.len(),
            sorts(texts(r@), texts(strings@.take(i as int))),
        decreases strings.len() - i,
    {
        let x = strings[i].clone();
        let xc = chars_of(x.as_str());
        let mut p: usize = 0;
        while p < r.len() && lex_le_exec(&chars_of(r[p].as_str()), &xc)
            invariant
                p <= r.len(),
                xc@ == x@,
                forall|k: int| 0 <= k < p ==> lex_le(#[trigger] r@[k]@, x@),
            decreases r.len() - p,
        {
            p = p + 1;
        }
        proof {
            if p < r.len() {
                lemma_lex_total(r@[p as int]@, x@);
            }
        }
        let ghost old_r = texts(r@);
        r.insert(p, x);
        proof {
            assert(texts(r@) =~= old_r.insert(p as int, x@));
            assert(strings@.take(i + 1) =~= strings@.take(i as int).push(strings@[i as int]));
            assert(texts(strings@.take(i + 1)) =~= texts(strings@.take(i as int)).push(x@));
            vstd::seq_lib::to_multiset_build(texts(strings@.take(i as int)), x@);
            vstd::seq_lib::to_multiset_insert(old_r, p as int, x@);
            assert(texts(r@).to_multiset() == texts(strings@.take(i + 1)).to_multiset());
            assert forall|a: int, b: int|
                0 <= a < b < texts(r@).len() implies lex_le(
                #[trigger] texts(r@)[a],
                #[trigger] texts(r@)[b],
            ) by {
                if b < p {
                } else if b == p {
                    assert(lex_le(old_r[a], x@));
                } else if a < p {
                    assert(lex_le(old_r[a], old_r[b - 1]));
                } else if a == p {
                    if p < old_r.len() {
                        assert(lex_le(old_r[p as int], old_r[b - 1]) || p == b - 1);
                    }
                    lemma_sorted_after(old_r, x@, p as int, b - 1);
                } else {
                    assert(lex_le(old_r[a - 1], old_r[b - 1]));
                }
            }
        }
        i = i + 1;
    }
    assert(strings@.take(strings.len() as int) =~= strings@);
    r
}

/// In a sorted sequence, an item not before or equal to `x` at `p` means `x`
/// sorts before every item from `p` on.
proof fn lemma_sorted_after(s: Seq<Seq<char>>, x: Seq<char>, p: int, q: int)
    requires
        is_sorted(s),
        0 <= p <= q < s.len(),
        !lex_le(s[p], x),
    ensures
        lex_le(x, s[q]),
{
    lemma_lex_total(s[p], x);
    if p < q {
        assert(lex_le(s[p], s[q]));
        lemma_lex_trans(x, s[p], s[q]);
    }
}

pub proof fn lemma_lex_trans(a: Seq<char>, b: Seq<char>, c: Seq<char>)
    requires
        lex_le(a, b),
        lex_le(b, c),
    ensures
        lex_le(a, c),
    decreases a.len(),
{
    if a.len() > 0 && b.len() > 0 && c.len() > 0 && a[0] == b[0] && b[0] == c[0] {
        lemma_lex_trans(a.drop_first(), b.drop_first(), c.drop_first());
    }
}

/// `parts` joined with `sep` between neighbours.
pub fn join_strings(parts: &Vec<String>, sep: &str) -> (r: String)
    ensures
        r@ == join_with(texts(parts@), sep@),
{
    let mut r = String::new();
    let mut i: usize = 0;
    while i < parts.len()
        invariant
            i <= parts.len(),
            r@ == join_with(texts(parts@).take(i as int), sep@),
        decreases parts.len() - i,
    {
        if i > 0 {
            r.append(sep);
        }
        r.append(parts[i].as_str());
        proof {
            let t = texts(parts@);
            assert(t.take(i + 1).drop_last() =~= t.take(i as int));
            if i == 0 {
                assert(join_with(t.take(0), sep@) =~= Seq::<char>::empty());
                assert(t.take(1) =~= seq![t[0]]);
            }
        }
        i = i + 1;
    }
    assert(texts(parts@).take(parts.len() as int) =~= texts(parts@));
    r
}

/// The pieces of `s` between occurrences of `c`.
pub fn split_on_exec(s: &Vec<char>, c: char) -> (r: Vec<String>)
    ensures
        texts(r@) == split_on(s@, c),
{
    let mut r: Vec<String> = Vec::new();
    let mut p: usize = 0;
    assert(s@.skip(0) =~= s@);
    loop
        invariant
            p <= s.len(),
            texts(r@) + split_on(s@.skip(p as int), c) == split_on(s@, c),
        decreases s.len() - p,
    {
        let ghost tail = s@.skip(p as int);
        let found = char_index_exec(s, c, p);
        proof {
            lemma_char_index_skip(s@, c, p as nat, 0);
            lemma_char_index_from_found(s@, c, p as nat);
        }
        match found {
            Some(i) => {
                let piece = string_of_range(s, p, i);
                proof {
                    let j = (i - p) as int;
                    assert(tail.take(j) =~= s@.subrange(p as int, i as int));
                    assert(tail.skip(j + 1) =~= s@.skip(i + 1));
                    assert(split_on(tail, c) == seq![tail.take(j)] + split_on(tail.skip(j + 1), c));
                    assert(texts(r@.push(piece)) =~= texts(r@).push(piece@));
                    assert(texts(r@).push(piece@) + split_on(s@.skip(i + 1), c) =~= texts(r@)
                        + split_on(tail, c));
                }
                r.push(piece);
                p = i + 1;
            },
            None => {
                let piece = string_of_range(s, p, s.len());
                proof {
                    assert(tail =~= s@.subrange(p as int, s.len() as int));
                    assert(texts(r@.push(piece)) =~= texts(r@).push(piece@));
                    assert(texts(r@).push(piece@) =~= texts(r@) + split_on(tail, c));
                }
                r.push(piece);
                return r;
            },
        }
    }
}

/// The white-space separated words of `s`.
pub fn words_exec(s: &Vec<char>) -> (r: Vec<String>)
    ensures
        texts(r@) == words(s@),
{
    let mut r: Vec<String> = Vec::new();
    let mut rest = sub_chars(s, 0, s.len());
    assert(rest@ =~= s@);
    loop
        invariant
            texts(r@) + words(rest@) == words(s@),
        decreases rest.len(),
    {
        let a = trim_start_from(&rest, 0, rest.len());
        let tc = sub_chars(&rest, a, rest.len());
        proof {
            assert(rest@.subrange(0, rest@.len() as int) =~= rest@);
            lemma_trim_start(rest@);
        }
        if tc.len() == 0 {
            assert(words(rest@) =~= Seq::<Seq<char>>::empty());
            assert(texts(r@) + words(rest@) =~= texts(r@));
            return r;
        }
        let mut k: usize = 1;
        while k < tc.len() && !white_space(tc[k])
            invariant
                1 <= k <= tc.len(),
                white_space_from(tc@, 1) == white_space_from(tc@, k as nat),
            decreases tc.len() - k,
        {
            k = k + 1;
        }
        let word = string_of_range(&tc, 0, k);
        proof {
            assert(tc@.subrange(0, k as int) =~= tc@.take(k as int));
            assert(texts(r@.push(word)) =~= texts(r@).push(word@));
        }
        if k == tc.len() {
            proof {
                assert(tc@.take(k as int) =~= tc@);
                assert(words(rest@) == seq![tc@]);
                assert(texts(r@).push(word@) =~= texts(r@) + words(rest@));
            }
            r.push(word);
            return r;
        }
        let next = sub_chars(&tc, k, tc.len());
        proof {
            assert(next@ =~= tc@.skip(k as int));
            assert(words(rest@) == seq![tc@.take(k as int)] + words(next@));
            assert(texts(r@).push(word@) + words(next@) =~= texts(r@) + words(rest@));
        }
        r.push(word);
        rest = next;
    }
}

/// Each string trimmed.
pub fn trim_each(v: &Vec<String>) -> (r: Vec<String>)
    ensures
        texts(r@) == trim_all(texts(v@)),
{
    let mut r: Vec<String> = Vec::new();
    let mut i: usize = 0;
    while i < v.len()
        invariant
            i <= v.len(),
            texts(r@) == trim_all(texts(v@)).take(i as int),
        decreases v.len() - i,
    {
        let cs = chars_of(v[i].as_str());
        let (lo, hi) = trim_range(&cs, 0, cs.len());
        assert(cs@.subrange(0, cs@.len() as int) =~= cs@);
        let x = string_of_range(&cs, lo, hi);
        assert(x@ == trim(v@[i as int]@));
        assert(trim_all(texts(v@))[i as int] == trim(texts(v@)[i as int]));
        let ghost old_r = r@;
        r.push(x);
        assert(texts(r@) =~= texts(old_r).push(x@));
        assert(trim_all(texts(v@)).take(i + 1) =~= trim_all(texts(v@)).take(i as int).push(x@));
        i = i + 1;
        assert(texts(r@) =~= trim_all(texts(v@)).take(i as int));
    }
    assert(trim_all(texts(v@)).take(v.len() as int) =~= trim_all(texts(v@)));
    r
}

/// The strings that are not empty.
pub fn non_empty_exec(v: &Vec<String>) -> (r: Vec<String>)
    ensures
        texts(r@) == non_empty(texts(v@)),
{
    let mut r: Vec<String> = Vec::new();
    let mut i: usize = 0;
    assert(texts(v@).take(0) =~= Seq::<Seq<char>>::empty());
    while i < v.len()
        invariant
            i <= v.len(),
            texts(r@) == non_empty(texts(v@).take(i as int)),
        decreases v.len() - i,
    {
        proof {
            assert(texts(v@).take(i + 1).drop_last() =~= texts(v@).take(i as int));
        }
        if !v[i].as_str().is_empty() {
            r.push(v[i].clone());
            assert(texts(r@) =~= non_empty(texts(v@).take(i + 1)));
        }
        i = i + 1;
    }
    assert(texts(v@).take(v.len() as int) =~= texts(v@));
    r
}

/// Whether `x` is one of `all`.
pub fn listed(all: &Vec<String>, x: &String) -> (r: bool)
    ensures
        r == texts(all@).contains(x@),
{
    let mut k: usize = 0;
    while k < all.len()
        invariant
            k <= all.len(),
            forall|j: int| 0 <= j < k ==> all@[j]@ != x@,
        decreases all.len() - k,
    {
        if all[k] == *x {
            assert(texts(all@)[k as int] == x@);
            return true;
        }
        k = k + 1;
    }
    proof {
        if texts(all@).contains(x@) {
            let j = choose|j: int| 0 <= j < texts(all@).len() && texts(all@)[j] == x@;
            assert(all@[j]@ == x@);
        }
    }
    false
}

/// The strings that `all` does not hold.
pub fn not_among_exec(v: &Vec<String>, all: &Vec<String>) -> (r: Vec<String>)
    ensures
        texts(r@) == not_among(texts(v@), texts(all@)),
{
    let mut r: Vec<String> = Vec::new();
    let mut i: usize = 0;
    assert(texts(v@).take(0) =~= Seq::<Seq<char>>::empty());
    while i < v.len()
        invariant
            i <= v.len(),
            texts(r@) == not_among(texts(v@).take(i as int), texts(all@)),
        decreases v.len() - i,
    {
        proof {
            assert(texts(v@).take(i + 1).drop_last() =~= texts(v@).take(i as int));
        }
        if !listed(all, &v[i]) {
            r.push(v[i].clone());
            assert(texts(r@) =~= not_among(texts(v@).take(i + 1), texts(all@)));
        }
        i = i + 1;
    }
    assert(texts(v@).take(v.len() as int) =~= texts(v@));
    r
}

/// The strings without repeats, each where it first occurs.
pub fn dedup_exec(v: &Vec<String>) -> (r: Vec<String>)
    ensures
        texts(r@) == dedup(texts(v@)),
{
    let mut r: Vec<String> = Vec::new();
    let mut i: usize = 0;
    assert(texts(v@).take(0) =~= Seq::<Seq<char>>::empty());
    while i < v.len()
        invariant
            i <= v.len(),
            texts(r@) == dedup(texts(v@).take(i as int)),
        decreases v.len() - i,
    {
        proof {
            assert(texts(v@).take(i + 1).drop_last() =~= texts(v@).take(i as int));
        }
        if !listed(&r, &v[i]) {
            r.push(v[i].clone());
            assert(texts(r@) =~= dedup(texts(v@).take(i + 1)));
        }
        i = i + 1;
    }
    assert(texts(v@).take(v.len() as int) =~= texts(v@));
    r
}

} // verus!
