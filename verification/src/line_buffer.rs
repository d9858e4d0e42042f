use vstd::prelude::*;

use crate::pieces::split_on;
use crate::text::{
    append_chars, char_index_exec, char_index_from, chars_of, complete_lines, join_terminated,
    lemma_char_index_from_found, lemma_char_index_skip, lemma_complete_lines, string_of,
};

verus! {

/// A line as it is shown: the node prefix and a space in front when asked for.
pub open spec fn decorate(prefix: Seq<char>, with_prefix: bool, line: Seq<char>) -> Seq<char> {
    if with_prefix {
        prefix + seq![' '] + line
    } else {
        line
    }
}

/// Collects streamed output of one node and hands it out line by line.
pub struct LineBuffer {
    prefix: Vec<char>,
    buffer: Vec<char>,
}

impl LineBuffer {
    /// The prefix shown before each line: `[node_id]`.
    pub closed spec fn prefix(&self) -> Seq<char> {
        self.prefix@
    }

    /// The output received that no `\n` has completed yet.
    pub closed spec fn pending(&self) -> Seq<char> {
        self.buffer@
    }

    /// An empty buffer for the node `node_id`.
    pub fn new(node_id: &str) -> (r: LineBuffer)
        ensures
            r.prefix() == seq!['['] + node_id@ + seq![']'],
            r.pending() == Seq::<char>::empty(),
    {
        let mut prefix: Vec<char> = Vec::new();
        prefix.push('[');
        let id = chars_of(node_id);
        append_chars(&mut prefix, &id);
        prefix.push(']');
        assert(prefix@ =~= seq!['['] + node_id@ + seq![']']);
        LineBuffer { prefix, buffer: Vec::new() }
    }

    /// `line[lo..hi]`, decorated.
    pub fn show(&self, line: &Vec<char>, lo: usize, hi: usize, with_prefix: bool) -> (r: String)
        requires
            lo <= hi <= line.len(),
        ensures
            r@ == decorate(self.prefix(), with_prefix, line@.subrange(lo as int, hi as int)),
    {
        let mut out: Vec<char> = Vec::new();
        if with_prefix {
            append_chars(&mut out, &self.prefix);
            out.push(' ');
        }
        let mut i = lo;
        while i < hi
            invariant
                lo <= i <= hi <= line.len(),
                out@ == decorate(self.prefix(), with_prefix, line@.subrange(lo as int, i as int)),
            decreases hi - i,
        {
            out.push(line[i]);
            i = i + 1;
            assert(out@ =~= decorate(
                self.prefix(),
                with_prefix,
                line@.subrange(lo as int, i as int),
            ));
        }
        string_of(&out)
    }

    /// Adds `data` to the buffer and takes out every line that a `\n` has
    /// completed, decorated, in order; what follows the last `\n` stays.
    pub fn feed_chars(&mut self, data: &Vec<char>, with_prefix: bool) -> (shown: Vec<String>)
        ensures
            final(self).prefix() == old(self).prefix(),
            final(self).pending() == complete_lines(old(self).pending() + data@).1,
            shown.len() == complete_lines(old(self).pending() + data@).0.len(),
            forall|i: int|
                0 <= i < shown.len() ==> shown[i]@ == decorate(
                    old(self).prefix(),
                    with_prefix,
                    #[trigger] complete_lines(old(self).pending() + data@).0[i],
                ),
    {
        append_chars(&mut self.buffer, data);
        let ghost all = self.buffer@;
        let mut shown: Vec<String> = Vec::new();
        let mut p: usize = 0;
        assert(all.skip(0) =~= all);
        loop
            invariant
                p <= self.buffer.len(),
                self.buffer@ == all,
                self.prefix@ == old(self).prefix@,
                all == old(self).pending() + data@,
                complete_lines(all).1 == complete_lines(all.skip(p as int)).1,
                shown.len() + complete_lines(all.skip(p as int)).0.len() == complete_lines(
                    all,
                ).0.len(),
                forall|i: int|
                    0 <= i < shown.len() ==> shown[i]@ == decorate(
                        old(self).prefix(),
                        with_prefix,
                        #[trigger] complete_lines(all).0[i],
                    ),
                forall|i: int|
                    0 <= i < complete_lines(all.skip(p as int)).0.len() ==> complete_lines(
                        all,
                    ).0[shown.len() + i] == #[trigger] complete_lines(all.skip(p as int)).0[i],
            decreases self.buffer.len() - p,
        {
            let found = char_index_exec(&self.buffer, '\n', p);
            proof {
                lemma_char_index_skip(all, '\n', p as nat, 0);
                lemma_char_index_from_found(all, '\n', p as nat);
            }
            match found {
                Some(i) => {
                    let line = self.show(&self.buffer, p, i, with_prefix);
                    proof {
                        let tail = all.skip(p as int);
                        let j = (i - p) as int;
                        assert(tail.take(j) =~= all.subrange(p as int, i as int));
                        assert(tail.skip(j + 1) =~= all.skip(i + 1));
                        let rest = complete_lines(tail.skip(j + 1));
                        assert(complete_lines(tail).0 == seq![tail.take(j)] + rest.0);
                        assert forall|k: int| 0 <= k < rest.0.len() implies complete_lines(
                            all,
                        ).0[shown.len() + 1 + k] == #[trigger] rest.0[k] by {
                            assert(complete_lines(tail).0[k + 1] == rest.0[k]);
                        }
                        assert(complete_lines(all).0[shown.len() as int] == tail.take(j)) by {
                            assert(complete_lines(tail).0[0] == tail.take(j));
                        }
                    }
                    shown.push(line);
                    p = i + 1;
                },
                None => {
                    let rest = crate::text::sub_chars(&self.buffer, p, self.buffer.len());
                    proof {
                        let tail = all.skip(p as int);
                        assert(rest@ =~= tail);
                        assert(complete_lines(tail).0 =~= Seq::<Seq<char>>::empty());
                    }
                    self.buffer = rest;
                    return shown;
                },
            }
        }
    }

    /// `feed_chars` on the characters of `data`.
    pub fn feed(&mut self, data: &str, with_prefix: bool) -> (shown: Vec<String>)
        ensures
            final(self).prefix() == old(self).prefix(),
            final(self).pending() == complete_lines(old(self).pending() + data@).1,
            shown.len() == complete_lines(old(self).pending() + data@).0.len(),
            forall|i: int|
                0 <= i < shown.len() ==> shown[i]@ == decorate(
                    old(self).prefix(),
                    with_prefix,
                    #[trigger] complete_lines(old(self).pending() + data@).0[i],
                ),
    {
        let d = chars_of(data);
        self.feed_chars(&d, with_prefix)
    }

    /// Takes out what is still buffered, decorated, unless nothing is.
    pub fn flush(&mut self, with_prefix: bool) -> (shown: Option<String>)
        ensures
            final(self).prefix() == old(self).prefix(),
            final(self).pending() == Seq::<char>::empty(),
            match shown {
                Some(line) => old(self).pending().len() > 0 && line@ == decorate(
                    old(self).prefix(),
                    with_prefix,
                    old(self).pending(),
                ),
                None => old(self).pending().len() == 0,
            },
    {
        if self.buffer.len() == 0 {
            return None;
        }
        let line = self.show(&self.buffer, 0, self.buffer.len(), with_prefix);
        assert(self.buffer@.subrange(0, self.buffer@.len() as int) =~= self.buffer@);
        self.buffer = Vec::new();
        Some(line)
    }
}

/// Feeding loses and invents nothing: the lines taken out, each followed by
/// `\n`, and then what stays buffered, are exactly what was buffered before
/// followed by what was fed; neither holds a `\n`.
pub proof fn law_feed_lossless(pending: Seq<char>, data: Seq<char>)
    ensures
        join_terminated(complete_lines(pending + data).0) + complete_lines(pending + data).1
            == pending + data,
        forall|k: int|
            0 <= k < complete_lines(pending + data).1.len() ==> complete_lines(pending + data).1[k]
                != '\n',
{
    lemma_complete_lines(pending + data);
}

/// Lines already split off, put back in front of more text, are split off
/// again, first.
proof fn lemma_complete_after_lines(ls: Seq<Seq<char>>, s: Seq<char>)
    requires
        forall|i: int, k: int| 0 <= i < ls.len() && 0 <= k < ls[i].len() ==> ls[i][k] != '\n',
    ensures
        complete_lines(join_terminated(ls) + s) == (ls + complete_lines(s).0, complete_lines(s).1),
    decreases ls.len(),
{
    if ls.len() == 0 {
        assert(join_terminated(ls) + s =~= s);
        assert(ls + complete_lines(s).0 =~= complete_lines(s).0);
    } else {
        let l0 = ls[0];
        let tail = ls.drop_first();
        assert forall|i: int, k: int| 0 <= i < tail.len() && 0 <= k < tail[i].len() implies tail[i][k]
            != '\n' by {
            assert(tail[i] == ls[i + 1]);
        }
        lemma_complete_after_lines(tail, s);
        let rest = join_terminated(tail) + s;
        let t = join_terminated(ls) + s;
        assert(t =~= l0 + seq!['\n'] + rest);
        lemma_char_index_from_found(t, '\n', 0);
        assert(t[l0.len() as int] == '\n');
        assert forall|j: int| 0 <= j < l0.len() implies t[j] != '\n' by {
            assert(t[j] == l0[j]);
            assert(ls[0][j] != '\n');
        }
        assert(char_index_from(t, '\n', 0) == Some(l0.len()));
        assert(t.take(l0.len() as int) =~= l0);
        assert(t.skip(l0.len() + 1int) =~= rest);
        assert(ls =~= seq![l0] + tail);
        assert(seq![l0] + (tail + complete_lines(s).0) =~= ls + complete_lines(s).0);
    }
}

/// Feeding `a` and then `b` hands out the same lines, and leaves the same
/// text buffered, as feeding `a + b` at once.
pub proof fn law_feed_twice(pending: Seq<char>, a: Seq<char>, b: Seq<char>)
    ensures
        complete_lines(pending + a).0 + complete_lines(complete_lines(pending + a).1 + b).0
            == complete_lines(pending + a + b).0,
        complete_lines(complete_lines(pending + a).1 + b).1 == complete_lines(pending + a + b).1,
{
    lemma_complete_lines(pending + a);
    let c = complete_lines(pending + a);
    assert(pending + a + b =~= join_terminated(c.0) + (c.1 + b));
    lemma_complete_after_lines(c.0, c.1 + b);
}

proof fn lemma_split_is_complete_lines(s: Seq<char>)
    ensures
        split_on(s, '\n') == complete_lines(s).0.push(complete_lines(s).1),
    decreases s.len(),
{
    lemma_char_index_from_found(s, '\n', 0);
    match char_index_from(s, '\n', 0) {
        Some(i) => {
            lemma_split_is_complete_lines(s.skip(i + 1int));
            let r = complete_lines(s.skip(i + 1int));
            assert(seq![s.take(i as int)] + r.0.push(r.1) =~= (seq![s.take(i as int)] + r.0).push(
                r.1,
            ));
        },
        None => {
            assert(Seq::<Seq<char>>::empty().push(s) =~= seq![s]);
        },
    }
}

/// What feeding `data` and then flushing hands out, in order: the lines
/// that `\n` completed, then the rest when there is any.
pub open spec fn fed_then_flushed(pending: Seq<char>, data: Seq<char>) -> Seq<Seq<char>> {
    let c = complete_lines(pending + data);
    if c.1.len() > 0 {
        c.0.push(c.1)
    } else {
        c.0
    }
}

/// Feeding and then flushing hands out exactly the `\n`-separated pieces
/// of what was buffered followed by what was fed, in order; only an empty
/// last piece (after a final `\n`, or of empty text) is not handed out.
pub proof fn law_feed_then_flush(pending: Seq<char>, data: Seq<char>)
    ensures
        fed_then_flushed(pending, data) == if split_on(pending + data, '\n').last().len() == 0 {
            split_on(pending + data, '\n').drop_last()
        } else {
            split_on(pending + data, '\n')
        },
{
    let c = complete_lines(pending + data);
    lemma_split_is_complete_lines(pending + data);
    assert(c.0.push(c.1).drop_last() =~= c.0);
}

} // verus!
