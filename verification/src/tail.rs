//! Following a growing log file: which part to read next, and how what was
//! read splits into complete lines and a carried-over unfinished line.
use vstd::prelude::*;
use crate::log_line::{line_message_spec, LogPatterns};
use crate::text::{chars_of, string_of};

verus! {

/// A line without one trailing carriage return.
pub open spec fn strip_cr(line: Seq<char>) -> Seq<char> {
    if line.len() > 0 && line.last() == '\r' {
        line.drop_last()
    } else {
        line
    }
}

/// Reading the characters of `s` one by one onto `state`, a pair of the
/// complete lines so far and the current unfinished line: a line feed
/// completes the current line (without a trailing carriage return), any
/// other character extends it.
pub open spec fn feed(state: (Seq<Seq<char>>, Seq<char>), s: Seq<char>) -> (
    Seq<Seq<char>>,
    Seq<char>,
)
    decreases s.len(),
{
    if s.len() == 0 {
        state
    } else {
        let (lines, cur) = feed(state, s.drop_last());
        if s.last() == '\n' {
            (lines.push(strip_cr(cur)), Seq::<char>::empty())
        } else {
            (lines, cur.push(s.last()))
        }
    }
}

/// The complete lines of `s` and the text after its last line feed.
pub open spec fn split_lines(s: Seq<char>) -> (Seq<Seq<char>>, Seq<char>) {
    feed((Seq::empty(), Seq::empty()), s)
}

proof fn lemma_feed_append(state: (Seq<Seq<char>>, Seq<char>), a: Seq<char>, b: Seq<char>)
    ensures
        feed(state, a + b) == feed(feed(state, a), b),
    decreases b.len(),
{
    if b.len() == 0 {
        assert(a + b == a);
    } else {
        assert((a + b).drop_last() == a + b.drop_last());
        assert((a + b).last() == b.last());
        lemma_feed_append(state, a, b.drop_last());
    }
}

proof fn lemma_feed_lines_prefix(lines: Seq<Seq<char>>, cur: Seq<char>, b: Seq<char>)
    ensures
        feed((lines, cur), b).0 == lines + feed((Seq::empty(), cur), b).0,
        feed((lines, cur), b).1 == feed((Seq::empty(), cur), b).1,
    decreases b.len(),
{
    if b.len() > 0 {
        lemma_feed_lines_prefix(lines, cur, b.drop_last());
        let inner = feed((Seq::empty(), cur), b.drop_last());
        if b.last() == '\n' {
            assert(lines + inner.0.push(strip_cr(inner.1)) == (lines + inner.0).push(
                strip_cr(inner.1),
            ));
        }
    } else {
        assert(lines + Seq::<Seq<char>>::empty() == lines);
    }
}

proof fn lemma_feed_no_newline(cur: Seq<char>)
    requires
        forall|i: int| 0 <= i < cur.len() ==> cur[i] != '\n',
    ensures
        split_lines(cur) == (Seq::<Seq<char>>::empty(), cur),
    decreases cur.len(),
{
    if cur.len() > 0 {
        lemma_feed_no_newline(cur.drop_last());
        assert(cur.drop_last().push(cur.last()) == cur);
    } else {
        assert(cur == Seq::<char>::empty());
    }
}

/// The unfinished line that `split_lines` leaves holds no line feed.
pub proof fn lemma_rest_has_no_newline(s: Seq<char>)
    ensures
        forall|i: int|
            0 <= i < split_lines(s).1.len() ==> #[trigger] split_lines(s).1[i] != '\n',
    decreases s.len(),
{
    if s.len() > 0 {
        lemma_rest_has_no_newline(s.drop_last());
        let prev = split_lines(s.drop_last()).1;
        if s.last() != '\n' {
            assert forall|i: int| 0 <= i < prev.push(s.last()).len() implies #[trigger] prev.push(
                s.last(),
            )[i] != '\n' by {
                if i < prev.len() {
                    assert(prev.push(s.last())[i] == prev[i]);
                }
            }
        }
    }
}

/// Splitting does not depend on how the text arrives: reading `a` and then
/// `b` (carrying the unfinished line of `a` over) yields the same complete
/// lines, and the same unfinished line, as reading `a + b` at once.
pub proof fn lemma_split_chunks(a: Seq<char>, b: Seq<char>)
    ensures
        split_lines(a + b).0 == split_lines(a).0 + split_lines(split_lines(a).1 + b).0,
        split_lines(a + b).1 == split_lines(split_lines(a).1 + b).1,
{
    let st = split_lines(a);
    lemma_feed_append((Seq::empty(), Seq::empty()), a, b);
    lemma_feed_lines_prefix(st.0, st.1, b);
    lemma_rest_has_no_newline(a);
    lemma_feed_no_newline(st.1);
    lemma_feed_append((Seq::empty(), Seq::empty()), st.1, b);
}

/// The complete lines, each followed by a line feed, then the unfinished line.
pub open spec fn join_lines(lines: Seq<Seq<char>>, rest: Seq<char>) -> Seq<char>
    decreases lines.len(),
{
    if lines.len() == 0 {
        rest
    } else {
        join_lines(lines.drop_last(), Seq::empty()) + lines.last() + seq!['\n'] + rest
    }
}

proof fn lemma_join_rest(lines: Seq<Seq<char>>, rest: Seq<char>)
    ensures
        join_lines(lines, rest) == join_lines(lines, Seq::empty()) + rest,
    decreases lines.len(),
{
    if lines.len() == 0 {
        assert(Seq::<char>::empty() + rest == rest);
    } else {
        let a = join_lines(lines.drop_last(), Seq::empty()) + lines.last() + seq!['\n'];
        assert(a + Seq::<char>::empty() == a);
    }
}

/// Text without carriage returns loses nothing in splitting: its complete
/// lines, each followed by a line feed, and then its unfinished line, give
/// the text back.
pub proof fn lemma_split_lossless(s: Seq<char>)
    requires
        forall|i: int| 0 <= i < s.len() ==> s[i] != '\r',
    ensures
        join_lines(split_lines(s).0, split_lines(s).1) == s,
    decreases s.len(),
{
    if s.len() == 0 {
    } else {
        let p = s.drop_last();
        assert forall|i: int| 0 <= i < p.len() implies p[i] != '\r' by {
            assert(p[i] == s[i]);
        }
        lemma_split_lossless(p);
        let (lines, cur) = split_lines(p);
        lemma_join_rest(lines, cur);
        lemma_rest_has_no_newline(p);
        if s.last() == '\n' {
            if cur.len() > 0 {
                assert(cur.last() == p[p.len() - 1]) by {
                    lemma_rest_suffix(p);
                }
            }
            assert(strip_cr(cur) == cur);
            let nl = lines.push(cur);
            assert(nl.drop_last() == lines);
            lemma_join_rest(lines, Seq::empty());
            assert(join_lines(nl, Seq::empty()) == join_lines(lines, Seq::empty()) + cur + seq![
                '\n',
            ] + Seq::<char>::empty());
            assert(p.push('\n') == s);
            assert(join_lines(lines, Seq::empty()) + cur + seq!['\n'] + Seq::<char>::empty()
                =~= (join_lines(lines, Seq::empty()) + cur).push('\n'));
        } else {
            lemma_join_rest(lines, cur.push(s.last()));
            assert(join_lines(lines, Seq::empty()) + cur.push(s.last()) =~= (join_lines(
                lines,
                Seq::empty(),
            ) + cur).push(s.last()));
            assert(p.push(s.last()) == s);
        }
    }
}

proof fn lemma_rest_suffix(s: Seq<char>)
    ensures
        split_lines(s).1.len() <= s.len(),
        split_lines(s).1 == s.skip(s.len() - split_lines(s).1.len()),
    decreases s.len(),
{
    if s.len() > 0 {
        lemma_rest_suffix(s.drop_last());
        let prev = split_lines(s.drop_last()).1;
        if s.last() != '\n' {
            assert(prev.push(s.last()) =~= s.skip(s.len() - prev.len() - 1));
        } else {
            assert(s.skip(s.len() as int) =~= Seq::<char>::empty());
        }
    } else {
        assert(s.skip(0) =~= s);
    }
}

/// The chunks of text read at successive polls, one after another.
pub open spec fn concat_chunks(chunks: Seq<Seq<char>>) -> Seq<char>
    decreases chunks.len(),
{
    if chunks.len() == 0 {
        Seq::empty()
    } else {
        concat_chunks(chunks.drop_last()) + chunks.last()
    }
}

/// The unfinished line carried over after reading `chunks` one poll at a
/// time, starting from the unfinished line `partial`.
pub open spec fn carried_after(partial: Seq<char>, chunks: Seq<Seq<char>>) -> Seq<char>
    decreases chunks.len(),
{
    if chunks.len() == 0 {
        partial
    } else {
        split_lines(carried_after(partial, chunks.drop_last()) + chunks.last()).1
    }
}

/// The complete lines taken, poll after poll, when `chunks` are read one
/// poll at a time starting from the unfinished line `partial`.
pub open spec fn lines_over_polls(partial: Seq<char>, chunks: Seq<Seq<char>>) -> Seq<Seq<char>>
    decreases chunks.len(),
{
    if chunks.len() == 0 {
        Seq::empty()
    } else {
        lines_over_polls(partial, chunks.drop_last()) + split_lines(
            carried_after(partial, chunks.drop_last()) + chunks.last(),
        ).0
    }
}

/// However the appended text is cut into polls, the lines taken over all
/// polls are the complete lines of the whole appended text, in order, each
/// once, and what is carried over is the text after its last line feed.
pub proof fn lemma_polls_equal_whole(partial: Seq<char>, chunks: Seq<Seq<char>>)
    requires
        forall|i: int| 0 <= i < partial.len() ==> partial[i] != '\n',
    ensures
        lines_over_polls(partial, chunks) == split_lines(partial + concat_chunks(chunks)).0,
        carried_after(partial, chunks) == split_lines(partial + concat_chunks(chunks)).1,
    decreases chunks.len(),
{
    if chunks.len() == 0 {
        lemma_feed_no_newline(partial);
        assert(partial + Seq::<char>::empty() == partial);
    } else {
        let init = chunks.drop_last();
        let last = chunks.last();
        lemma_polls_equal_whole(partial, init);
        let a = partial + concat_chunks(init);
        lemma_split_chunks(a, last);
        assert(partial + concat_chunks(chunks) == a + last);
    }
}

/// Where reading of a log file stands: the byte offset up to which it was
/// read, and the text after its last line feed, kept until the line is
/// complete.
pub struct LogTail {
    offset: u64,
    partial: Vec<char>,
}

impl LogTail {
    #[verifier::type_invariant]
    spec fn partial_is_unfinished(self) -> bool {
        forall|i: int| 0 <= i < self.partial@.len() ==> self.partial@[i] != '\n'
    }

    /// The byte offset up to which the file was read.
    pub closed spec fn offset_spec(&self) -> u64 {
        self.offset
    }

    /// The text read but not yet forwarded because no line feed ended it.
    pub closed spec fn partial_spec(&self) -> Seq<char> {
        self.partial@
    }

    /// Starts following a file at its current end; `len` is the file's
    /// length where it could be found, `None` where it could not (then
    /// reading starts at the beginning).
    pub fn new(len: Option<u64>) -> (r: LogTail)
        ensures
            r.offset_spec() == match len {
                Some(n) => n,
                None => 0,
            },
            r.partial_spec() == Seq::<char>::empty(),
    {
        let offset = match len {
            Some(n) => n,
            None => 0,
        };
        LogTail { offset, partial: Vec::new() }
    }

    /// The byte offset up to which the file was read.
    pub fn offset(&self) -> (r: u64)
        ensures
            r == self.offset_spec(),
    {
        self.offset
    }

    /// The unfinished line carried over, as text.
    pub fn partial(&self) -> (r: String)
        ensures
            r@ == self.partial_spec(),
    {
        string_of(self.partial.as_slice())
    }

    /// Starts a poll of a file that is now `len` bytes long. A file shorter
    /// than the offset (rotated or truncated) is read again from the start,
    /// and the carried-over text is dropped. Returns the offset to read
    /// from, or `None` when nothing was appended.
    pub fn begin_poll(&mut self, len: u64) -> (r: Option<u64>)
        ensures
            len < old(self).offset_spec() ==> final(self).offset_spec() == 0
                && final(self).partial_spec() == Seq::<char>::empty(),
            len >= old(self).offset_spec() ==> final(self).offset_spec() == old(self).offset_spec()
                && final(self).partial_spec() == old(self).partial_spec(),
            r == if len == final(self).offset_spec() {
                None
            } else {
                Some(final(self).offset_spec())
            },
    {
        proof {
            use_type_invariant(&*self);
        }
        if len < self.offset {
            self.offset = 0;
            self.partial = Vec::new();
        }
        if len == self.offset {
            None
        } else {
            Some(self.offset)
        }
    }

    /// Takes in the text read from the offset to the end of a file that was
    /// `len` bytes long: the offset moves to `len`, and the complete lines of
    /// the carried-over text followed by `chunk` are returned, while the text
    /// after their last line feed is carried over.
    pub fn take_chunk(&mut self, len: u64, chunk: &str) -> (lines: Vec<String>)
        ensures
            final(self).offset_spec() == len,
            lines.deep_view() == split_lines(old(self).partial_spec() + chunk@).0,
            final(self).partial_spec() == split_lines(old(self).partial_spec() + chunk@).1,
    {
        proof {
            use_type_invariant(&*self);
        }
        let ghost start = self.partial@;
        let cs = chars_of(chunk);
        let mut lines: Vec<String> = Vec::new();
        let mut cur: Vec<char> = Vec::new();
        std::mem::swap(&mut cur, &mut self.partial);
        proof {
            lemma_rest_has_no_newline(start);
            lemma_feed_no_newline(start);
            assert(chunk@.take(0) == Seq::<char>::empty());
            assert(start + chunk@.take(0) == start);
        }
        let mut i: usize = 0;
        while i < cs.len()
            invariant
                i <= cs.len(),
                cs@ == chunk@,
                (lines.deep_view(), cur@) == split_lines(start + chunk@.take(i as int)),
            decreases cs.len() - i,
        {
            let c = cs[i];
            let ghost pre = start + chunk@.take(i as int);
            assert(start + chunk@.take(i + 1) == pre.push(c));
            assert(pre.push(c).drop_last() == pre);
            assert(pre.push(c).last() == c);
            if c == '\n' {
                let line = if cur.len() > 0 && cur[cur.len() - 1] == '\r' {
                    let mut t = cur.clone();
                    t.pop();
                    t
                } else {
                    cur.clone()
                };
                assert(line@ == strip_cr(cur@));
                let ghost before = lines.deep_view();
                lines.push(string_of(line.as_slice()));
                assert(lines.deep_view() =~= before.push(strip_cr(cur@)));
                cur = Vec::new();
            } else {
                cur.push(c);
            }
            i = i + 1;
        }
        assert(chunk@.take(cs.len() as int) == chunk@);
        assert forall|k: int| 0 <= k < cur@.len() implies cur@[k] != '\n' by {
            lemma_rest_has_no_newline(start + chunk@);
            assert(split_lines(start + chunk@).1[k] != '\n');
        }
        self.offset = len;
        self.partial = cur;
        lines
    }
}

/// The chat text of each of `lines` that is forwarded, in order.
pub open spec fn messages_spec(lines: Seq<Seq<char>>) -> Seq<Seq<char>>
    decreases lines.len(),
{
    if lines.len() == 0 {
        Seq::empty()
    } else {
        let earlier = messages_spec(lines.drop_last());
        match line_message_spec(lines.last()) {
            Some(m) => earlier.push(m),
            None => earlier,
        }
    }
}

/// The chat messages for a batch of complete log lines, in order; lines
/// that no pattern recognises give none.
pub fn messages_for_lines(patterns: &LogPatterns, lines: &Vec<String>) -> (r: Vec<String>)
    ensures
        r.deep_view() == messages_spec(lines.deep_view()),
{
    let mut r: Vec<String> = Vec::new();
    let mut i: usize = 0;
    while i < lines.len()
        invariant
            i <= lines.len(),
            r.deep_view() == messages_spec(lines.deep_view().take(i as int)),
        decreases lines.len() - i,
    {
        let m = patterns.line_message(lines[i].as_str());
        let ghost before = r.deep_view();
        proof {
            let t = lines.deep_view().take(i + 1);
            assert(t.drop_last() == lines.deep_view().take(i as int));
            assert(t.last() == lines[i as int]@);
        }
        match m {
            Some(text) => {
                r.push(text);
                assert(r.deep_view() =~= before.push(text@));
            },
            None => {},
        }
        i = i + 1;
    }
    assert(lines.deep_view().take(lines.len() as int) == lines.deep_view());
    r
}

} // verus!
