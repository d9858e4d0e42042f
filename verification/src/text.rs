use vstd::prelude::*;

verus! {

broadcast use vstd::string::group_string_axioms;

// ---------------------------------------------------------------------------
// Specifications of the text operations the library is built on.
// All text is modelled as a sequence of Unicode scalar values.
// ---------------------------------------------------------------------------

/// Unicode `White_Space`: the characters that `str::trim` removes.
pub open spec fn is_white_space(c: char) -> bool {
    ||| c == '\t'
    ||| c == '\n'
    ||| c == '\u{0B}'
    ||| c == '\u{0C}'
    ||| c == '\r'
    ||| c == ' '
    ||| c == '\u{85}'
    ||| c == '\u{A0}'
    ||| c == '\u{1680}'
    ||| ('\u{2000}' <= c && c <= '\u{200A}')
    ||| c == '\u{2028}'
    ||| c == '\u{2029}'
    ||| c == '\u{202F}'
    ||| c == '\u{205F}'
    ||| c == '\u{3000}'
}

/// `s` without its leading white space.
pub open spec fn trim_start(s: Seq<char>) -> Seq<char>
    decreases s.len(),
{
    if s.len() > 0 && is_white_space(s[0]) {
        trim_start(s.drop_first())
    } else {
        s
    }
}

/// `s` without its trailing white space.
pub open spec fn trim_end(s: Seq<char>) -> Seq<char>
    decreases s.len(),
{
    if s.len() > 0 && is_white_space(s.last()) {
        trim_end(s.drop_last())
    } else {
        s
    }
}

/// `s` without leading and trailing white space.
pub open spec fn trim(s: Seq<char>) -> Seq<char> {
    trim_end(trim_start(s))
}

/// `pat` occurs in `s` starting at index `i`.
pub open spec fn occurs_at(s: Seq<char>, pat: Seq<char>, i: int) -> bool {
    &&& 0 <= i
    &&& i + pat.len() <= s.len()
    &&& s.subrange(i, i + pat.len()) == pat
}

/// `pat` occurs somewhere in `s`.
pub open spec fn contains_seq(s: Seq<char>, pat: Seq<char>) -> bool {
    exists|i: int| occurs_at(s, pat, i)
}

/// The first index at or after `from` where `pat` occurs in `s`.
pub open spec fn find_from(s: Seq<char>, pat: Seq<char>, from: nat) -> Option<nat>
    decreases s.len() + 1 - from,
{
    if from + pat.len() > s.len() {
        None
    } else if occurs_at(s, pat, from as int) {
        Some(from)
    } else {
        find_from(s, pat, from + 1)
    }
}

/// The first index where `pat` occurs in `s` (`str::find`).
pub open spec fn find(s: Seq<char>, pat: Seq<char>) -> Option<nat> {
    find_from(s, pat, 0)
}

/// The first index at or after `from` that holds `c`.
pub open spec fn char_index_from(s: Seq<char>, c: char, from: nat) -> Option<nat>
    decreases s.len() - from,
{
    if from >= s.len() {
        None
    } else if s[from as int] == c {
        Some(from)
    } else {
        char_index_from(s, c, from + 1)
    }
}

/// `l` without one trailing carriage return.
pub open spec fn strip_cr(l: Seq<char>) -> Seq<char> {
    if l.len() > 0 && l.last() == '\r' {
        l.drop_last()
    } else {
        l
    }
}

/// The lines of `s` as `str::lines` yields them: split at `\n`, a `\r` right
/// before a `\n` dropped, and no empty line after a final `\n`.
pub open spec fn lines(s: Seq<char>) -> Seq<Seq<char>>
    decreases s.len(),
{
    if s.len() == 0 {
        seq![]
    } else {
        match char_index_from(s, '\n', 0) {
            Some(i) => {
                proof {
                    lemma_char_index_from_found(s, '\n', 0);
                }
                seq![strip_cr(s.take(i as int))] + lines(s.skip(i + 1int))
            },
            None => seq![s],
        }
    }
}

/// The `\n`-terminated pieces at the front of `s` (terminators removed),
/// and what follows the last `\n`.
pub open spec fn complete_lines(s: Seq<char>) -> (Seq<Seq<char>>, Seq<char>)
    decreases s.len(),
{
    match char_index_from(s, '\n', 0) {
        Some(i) => {
            proof {
                lemma_char_index_from_found(s, '\n', 0);
            }
            let rest = complete_lines(s.skip(i + 1int));
            (seq![s.take(i as int)] + rest.0, rest.1)
        },
        None => (seq![], s),
    }
}

/// Each piece followed by a `\n`, all concatenated.
pub open spec fn join_terminated(ls: Seq<Seq<char>>) -> Seq<char>
    decreases ls.len(),
{
    if ls.len() == 0 {
        seq![]
    } else {
        ls[0] + seq!['\n'] + join_terminated(ls.drop_first())
    }
}

/// The decimal digit `d` (`0 <= d < 10`).
pub open spec fn digit_char(d: int) -> char {
    if d == 0 {
        '0'
    } else if d == 1 {
        '1'
    } else if d == 2 {
        '2'
    } else if d == 3 {
        '3'
    } else if d == 4 {
        '4'
    } else if d == 5 {
        '5'
    } else if d == 6 {
        '6'
    } else if d == 7 {
        '7'
    } else if d == 8 {
        '8'
    } else {
        '9'
    }
}

/// `n` written in decimal, as `{}` formats an unsigned integer.
pub open spec fn decimal(n: nat) -> Seq<char>
    decreases n,
{
    if n < 10 {
        seq![digit_char(n as int)]
    } else {
        decimal(n / 10) + seq![digit_char((n % 10) as int)]
    }
}

// ---------------------------------------------------------------------------
// Lemmas about these specifications.
// ---------------------------------------------------------------------------

pub proof fn lemma_char_index_from_found(s: Seq<char>, c: char, from: nat)
    ensures
        match char_index_from(s, c, from) {
            Some(i) => from <= i < s.len() && s[i as int] == c && forall|j: int|
                from <= j < i ==> s[j] != c,
            None => forall|j: int| from <= j < s.len() ==> s[j] != c,
        },
    decreases s.len() - from,
{
    if from < s.len() && s[from as int] != c {
        lemma_char_index_from_found(s, c, from + 1);
    }
}

pub proof fn lemma_find_from_found(s: Seq<char>, pat: Seq<char>, from: nat)
    ensures
        match find_from(s, pat, from) {
            Some(i) => from <= i && occurs_at(s, pat, i as int) && forall|j: int|
                from <= j < i ==> !occurs_at(s, pat, j),
            None => forall|j: int| from <= j ==> !occurs_at(s, pat, j),
        },
    decreases s.len() + 1 - from,
{
    if from + pat.len() <= s.len() && !occurs_at(s, pat, from as int) {
        lemma_find_from_found(s, pat, from + 1);
    }
}

/// `contains_seq` agrees with `find`.
pub proof fn lemma_find_contains(s: Seq<char>, pat: Seq<char>)
    ensures
        contains_seq(s, pat) <==> find(s, pat) is Some,
{
    lemma_find_from_found(s, pat, 0);
    if let Some(i) = find(s, pat) {
        assert(occurs_at(s, pat, i as int));
    }
}

/// An occurrence in `s` is an occurrence in any extension of `s`.
pub proof fn lemma_contains_extend(s: Seq<char>, more: Seq<char>, pat: Seq<char>)
    requires
        contains_seq(s, pat),
    ensures
        contains_seq(s + more, pat),
{
    let i = choose|i: int| occurs_at(s, pat, i);
    assert((s + more).subrange(i, i + pat.len()) =~= s.subrange(i, i + pat.len()));
    assert(occurs_at(s + more, pat, i));
}

/// Searching a suffix of `s` is searching `s` from where the suffix starts.
pub proof fn lemma_char_index_skip(s: Seq<char>, c: char, p: nat, k: nat)
    requires
        p <= s.len(),
    ensures
        char_index_from(s.skip(p as int), c, k) == match char_index_from(s, c, p + k) {
            Some(i) => Some((i - p) as nat),
            None => None,
        },
    decreases s.len() - p - k,
{
    if p + k < s.len() {
        assert(s.skip(p as int)[k as int] == s[(p + k) as int]);
        lemma_char_index_skip(s, c, p, k + 1);
    }
}

/// What `complete_lines` splits off, each piece followed by `\n`, and then
/// what remains, is exactly the input; no piece and no remainder holds `\n`.
pub proof fn lemma_complete_lines(s: Seq<char>)
    ensures
        join_terminated(complete_lines(s).0) + complete_lines(s).1 == s,
        forall|k: int| 0 <= k < complete_lines(s).1.len() ==> complete_lines(s).1[k] != '\n',
        forall|i: int, k: int|
            0 <= i < complete_lines(s).0.len() && 0 <= k < complete_lines(s).0[i].len()
                ==> complete_lines(s).0[i][k] != '\n',
    decreases s.len(),
{
    lemma_char_index_from_found(s, '\n', 0);
    match char_index_from(s, '\n', 0) {
        Some(i) => {
            let tail = s.skip(i + 1int);
            lemma_complete_lines(tail);
            let ls = complete_lines(s).0;
            assert(ls.drop_first() =~= complete_lines(tail).0);
            assert(join_terminated(ls) == ls[0] + seq!['\n'] + join_terminated(ls.drop_first()));
            assert(s =~= s.take(i as int) + seq!['\n'] + tail);
            assert forall|j: int, k: int|
                0 <= j < ls.len() && 0 <= k < ls[j].len() implies ls[j][k] != '\n' by {
                if j > 0 {
                    assert(ls[j] == complete_lines(tail).0[j - 1]);
                }
            }
        },
        None => {
            assert(join_terminated(seq![]) == Seq::<char>::empty());
            assert(Seq::<char>::empty() + s =~= s);
        },
    }
}

// ---------------------------------------------------------------------------
// Executable text operations.
// ---------------------------------------------------------------------------

/// `String::push`. Trusted: afterwards the string holds its former
/// characters followed by `c`, as std documents.
#[verifier::external_body]
fn push_char(s: &mut String, c: char)
    ensures
        final(s)@ == old(s)@.push(c),
{
    s.push(c);
}

/// The characters of a string slice, in order.
pub fn chars_of(s: &str) -> (r: Vec<char>)
    ensures
        r@ == s@,
{
    let mut r: Vec<char> = Vec::new();
    for c in it: s.chars()
        invariant
            r@ == it.seq().take(it.index()),
            it.seq() == s@,
    {
        r.push(c);
    }
    r
}

/// The string made of the characters `cs[lo..hi]`.
pub fn string_of_range(cs: &Vec<char>, lo: usize, hi: usize) -> (r: String)
    requires
        lo <= hi <= cs.len(),
    ensures
        r@ == cs@.subrange(lo as int, hi as int),
{
    let mut r = String::new();
    let mut i = lo;
    while i < hi
        invariant
            lo <= i <= hi <= cs.len(),
            r@ == cs@.subrange(lo as int, i as int),
        decreases hi - i,
    {
        push_char(&mut r, cs[i]);
        i = i + 1;
        assert(r@ =~= cs@.subrange(lo as int, i as int));
    }
    r
}

/// The string made of the characters `cs`.
pub fn string_of(cs: &Vec<char>) -> (r: String)
    ensures
        r@ == cs@,
{
    let r = string_of_range(cs, 0, cs.len());
    assert(cs@.subrange(0, cs@.len() as int) =~= cs@);
    r
}

/// The characters `cs[lo..hi]` as a new vector.
pub fn sub_chars(cs: &Vec<char>, lo: usize, hi: usize) -> (r: Vec<char>)
    requires
        lo <= hi <= cs.len(),
    ensures
        r@ == cs@.subrange(lo as int, hi as int),
{
    let mut r: Vec<char> = Vec::new();
    let mut i = lo;
    while i < hi
        invariant
            lo <= i <= hi <= cs.len(),
            r@ == cs@.subrange(lo as int, i as int),
        decreases hi - i,
    {
        r.push(cs[i]);
        i = i + 1;
        assert(r@ =~= cs@.subrange(lo as int, i as int));
    }
    r
}

/// Appends the characters of `more` to `cs`.
pub fn append_chars(cs: &mut Vec<char>, more: &Vec<char>)
    ensures
        final(cs)@ == old(cs)@ + more@,
{
    let mut i: usize = 0;
    while i < more.len()
        invariant
            i <= more.len(),
            cs@ == old(cs)@ + more@.take(i as int),
        decreases more.len() - i,
    {
        cs.push(more[i]);
        i = i + 1;
        assert(cs@ =~= old(cs)@ + more@.take(i as int));
    }
    assert(more@.take(more.len() as int) =~= more@);
}

/// The decimal digit `d`.
fn digit_exec(d: u32) -> (c: char)
    requires
        d < 10,
    ensures
        c == digit_char(d as int),
{
    if d == 0 {
        '0'
    } else if d == 1 {
        '1'
    } else if d == 2 {
        '2'
    } else if d == 3 {
        '3'
    } else if d == 4 {
        '4'
    } else if d == 5 {
        '5'
    } else if d == 6 {
        '6'
    } else if d == 7 {
        '7'
    } else if d == 8 {
        '8'
    } else {
        '9'
    }
}

/// `n` written in decimal.
pub fn decimal_exec(n: u32) -> (r: Vec<char>)
    ensures
        r@ == decimal(n as nat),
    decreases n,
{
    if n < 10 {
        let mut r: Vec<char> = Vec::new();
        r.push(digit_exec(n));
        assert(r@ =~= seq![digit_char(n as int)]);
        r
    } else {
        let mut r = decimal_exec(n / 10);
        r.push(digit_exec(n % 10));
        r
    }
}

/// Appends the characters `cs` to the string `s`.
pub fn append_char_vec(s: &mut String, cs: &Vec<char>)
    ensures
        final(s)@ == old(s)@ + cs@,
{
    let mut i: usize = 0;
    while i < cs.len()
        invariant
            i <= cs.len(),
            s@ == old(s)@ + cs@.take(i as int),
        decreases cs.len() - i,
    {
        push_char(s, cs[i]);
        i = i + 1;
        assert(s@ =~= old(s)@ + cs@.take(i as int));
    }
    assert(cs@.take(cs.len() as int) =~= cs@);
}

/// Whether `c` is Unicode white space.
pub fn white_space(c: char) -> (r: bool)
    ensures
        r == is_white_space(c),
{
    c == '\t' || c == '\n' || c == '\u{0B}' || c == '\u{0C}' || c == '\r' || c == ' ' || c
        == '\u{85}' || c == '\u{A0}' || c == '\u{1680}' || ('\u{2000}' <= c && c <= '\u{200A}')
        || c == '\u{2028}' || c == '\u{2029}' || c == '\u{202F}' || c == '\u{205F}' || c
        == '\u{3000}'
}

/// The bounds of the range `cs[lo..hi]` after leading white space is dropped.
pub fn trim_start_from(cs: &Vec<char>, lo: usize, hi: usize) -> (a: usize)
    requires
        lo <= hi <= cs.len(),
    ensures
        lo <= a <= hi,
        cs@.subrange(a as int, hi as int) == trim_start(cs@.subrange(lo as int, hi as int)),
{
    let mut a = lo;
    while a < hi && white_space(cs[a])
        invariant
            lo <= a <= hi <= cs.len(),
            trim_start(cs@.subrange(a as int, hi as int)) == trim_start(
                cs@.subrange(lo as int, hi as int),
            ),
        decreases hi - a,
    {
        assert(cs@.subrange(a as int, hi as int).drop_first() =~= cs@.subrange(
            a + 1,
            hi as int,
        ));
        a = a + 1;
    }
    a
}

/// The end of the range `cs[lo..hi]` after trailing white space is dropped.
pub fn trim_end_to(cs: &Vec<char>, lo: usize, hi: usize) -> (b: usize)
    requires
        lo <= hi <= cs.len(),
    ensures
        lo <= b <= hi,
        cs@.subrange(lo as int, b as int) == trim_end(cs@.subrange(lo as int, hi as int)),
{
    let mut b = hi;
    while b > lo && white_space(cs[b - 1])
        invariant
            lo <= b <= hi <= cs.len(),
            trim_end(cs@.subrange(lo as int, b as int)) == trim_end(
                cs@.subrange(lo as int, hi as int),
            ),
        decreases b - lo,
    {
        assert(cs@.subrange(lo as int, b as int).drop_last() =~= cs@.subrange(
            lo as int,
            b - 1,
        ));
        b = b - 1;
    }
    b
}

/// The bounds of `trim(cs[lo..hi])` within `cs`.
pub fn trim_range(cs: &Vec<char>, lo: usize, hi: usize) -> (r: (usize, usize))
    requires
        lo <= hi <= cs.len(),
    ensures
        lo <= r.0 <= r.1 <= hi,
        cs@.subrange(r.0 as int, r.1 as int) == trim(cs@.subrange(lo as int, hi as int)),
{
    let a = trim_start_from(cs, lo, hi);
    let b = trim_end_to(cs, a, hi);
    (a, b)
}

/// Whether `pat` occurs in `s` at index `i`.
pub fn occurs_at_exec(s: &Vec<char>, pat: &Vec<char>, i: usize) -> (r: bool)
    ensures
        r == occurs_at(s@, pat@, i as int),
{
    if i > s.len() || pat.len() > s.len() - i {
        return false;
    }
    let mut k: usize = 0;
    while k < pat.len()
        invariant
            i + pat.len() <= s.len(),
            k <= pat.len(),
            forall|j: int| 0 <= j < k ==> s@[i + j] == pat@[j],
        decreases pat.len() - k,
    {
        if s[i + k] != pat[k] {
            assert(s@.subrange(i as int, i + pat.len())[k as int] != pat@[k as int]);
            return false;
        }
        k = k + 1;
    }
    assert(s@.subrange(i as int, i + pat.len()) =~= pat@);
    true
}

/// The first index at or after `from` where `pat` occurs in `s`.
pub fn find_exec(s: &Vec<char>, pat: &Vec<char>, from: usize) -> (r: Option<usize>)
    ensures
        match r {
            Some(i) => find_from(s@, pat@, from as nat) == Some(i as nat),
            None => find_from(s@, pat@, from as nat) is None,
        },
{
    let mut i = from;
    while i < s.len() && pat.len() <= s.len() - i
        invariant
            from <= i,
            find_from(s@, pat@, i as nat) == find_from(s@, pat@, from as nat),
        decreases s.len() - i,
    {
        if occurs_at_exec(s, pat, i) {
            return Some(i);
        }
        i = i + 1;
    }
    if i <= s.len() && pat.len() <= s.len() - i && occurs_at_exec(s, pat, i) {
        return Some(i);
    }
    proof {
        reveal_with_fuel(find_from, 2);
    }
    None
}

/// The first index at or after `from` that holds `c`.
pub fn char_index_exec(s: &Vec<char>, c: char, from: usize) -> (r: Option<usize>)
    ensures
        match r {
            Some(i) => char_index_from(s@, c, from as nat) == Some(i as nat),
            None => char_index_from(s@, c, from as nat) is None,
        },
{
    let mut i = from;
    while i < s.len()
        invariant
            from <= i,
            char_index_from(s@, c, i as nat) == char_index_from(s@, c, from as nat),
        decreases s.len() - i,
    {
        if s[i] == c {
            return Some(i);
        }
        i = i + 1;
    }
    None
}

/// `cs[r.0..r.1]` is `piece`.
pub open spec fn range_holds(cs: Seq<char>, r: (usize, usize), piece: Seq<char>) -> bool {
    r.0 <= r.1 <= cs.len() && cs.subrange(r.0 as int, r.1 as int) == piece
}

/// Where each of `lines(cs)` lies in `cs`.
pub fn line_ranges(cs: &Vec<char>) -> (r: Vec<(usize, usize)>)
    ensures
        r.len() == lines(cs@).len(),
        forall|i: int|
            0 <= i < r.len() ==> range_holds(cs@, #[trigger] r[i], lines(cs@)[i]),
{
    let mut r: Vec<(usize, usize)> = Vec::new();
    let mut p: usize = 0;
    assert(cs@.skip(0) =~= cs@);
    loop
        invariant
            p <= cs.len(),
            r.len() + lines(cs@.skip(p as int)).len() == lines(cs@).len(),
            forall|i: int|
                0 <= i < r.len() ==> range_holds(cs@, #[trigger] r[i], lines(cs@)[i]),
            forall|i: int|
                0 <= i < lines(cs@.skip(p as int)).len() ==> lines(cs@)[r.len() + i]
                    == #[trigger] lines(cs@.skip(p as int))[i],
        decreases cs.len() - p,
    {
        let ghost tail = cs@.skip(p as int);
        if p == cs.len() {
            assert(tail.len() == 0);
            return r;
        }
        let found = char_index_exec(cs, '\n', p);
        proof {
            lemma_char_index_skip(cs@, '\n', p as nat, 0);
            lemma_char_index_from_found(cs@, '\n', p as nat);
        }
        match found {
            Some(i) => {
                let end = if i > p && cs[i - 1] == '\r' {
                    i - 1
                } else {
                    i
                };
                proof {
                    let j = (i - p) as int;
                    assert(tail.take(j) =~= cs@.subrange(p as int, i as int));
                    assert(strip_cr(tail.take(j)) =~= cs@.subrange(p as int, end as int));
                    assert(tail.skip(j + 1) =~= cs@.skip(i + 1));
                    let rest = lines(tail.skip(j + 1));
                    assert(lines(tail) == seq![strip_cr(tail.take(j))] + rest);
                    assert(lines(cs@)[r.len() as int] == lines(tail)[0]);
                    assert forall|k: int| 0 <= k < rest.len() implies lines(cs@)[r.len() + 1 + k]
                        == #[trigger] rest[k] by {
                        assert(lines(tail)[k + 1] == rest[k]);
                    }
                }
                r.push((p, end));
                p = i + 1;
            },
            None => {
                proof {
                    assert(lines(tail) == seq![tail]);
                    assert(tail =~= cs@.subrange(p as int, cs.len() as int));
                    assert(lines(cs@)[r.len() as int] == lines(tail)[0]);
                }
                r.push((p, cs.len()));
                return r;
            },
        }
    }
}

/// The number that a string of decimal digits stands for, read most
/// significant digit first.
pub open spec fn numeral_value(s: Seq<char>) -> int
    decreases s.len(),
{
    if s.len() == 0 {
        0
    } else {
        numeral_value(s.drop_last()) * 10 + (s.last() as int - '0' as int)
    }
}

proof fn lemma_digit_char(d: int)
    requires
        0 <= d < 10,
    ensures
        digit_char(d) as int == '0' as int + d,
        '0' <= digit_char(d) <= '9',
{
    assert('0' as int == 48);
    assert('9' as int == 57);
}

/// `decimal(n)` is the ordinary decimal numeral of `n`: at least one digit,
/// only the digits `0`..`9`, no leading zero unless `n` is zero, and read
/// back most significant digit first it gives `n` again.
pub proof fn law_decimal_reads_back(n: nat)
    ensures
        decimal(n).len() > 0,
        forall|i: int| 0 <= i < decimal(n).len() ==> '0' <= #[trigger] decimal(n)[i] <= '9',
        n > 0 ==> decimal(n)[0] != '0',
        numeral_value(decimal(n)) == n,
    decreases n,
{
    if n < 10 {
        lemma_digit_char(n as int);
        let d = decimal(n);
        assert(d.drop_last() =~= Seq::<char>::empty());
        assert(numeral_value(d) == numeral_value(d.drop_last()) * 10 + (d.last() as int
            - '0' as int));
    } else {
        lemma_digit_char((n % 10) as int);
        law_decimal_reads_back(n / 10);
        let d = decimal(n);
        let h = decimal(n / 10);
        assert(d.drop_last() =~= h);
        assert(d.last() == digit_char((n % 10) as int));
        assert(d[0] == h[0]);
        assert forall|i: int| 0 <= i < d.len() implies '0' <= #[trigger] d[i] <= '9' by {
            if i < h.len() {
                assert(d[i] == h[i]);
            }
        }
        assert(numeral_value(d) == numeral_value(h) * 10 + (d.last() as int - '0' as int));
        assert(n == (n / 10) * 10 + n % 10);
    }
}

} // verus!
