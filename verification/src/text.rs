//! Text as sequences of characters: copying, splitting into lines and joining.
//!
//! Every contract here is stated over the `Seq<char>` view of a string.

use vstd::prelude::*;
use vstd::std_specs::iter::IteratorSpec;
use vstd::string::StringExecFns;

verus! {

/// The views of a sequence of strings, in order.
pub open spec fn texts(v: Seq<String>) -> Seq<Seq<char>> {
    v.map_values(|s: String| s@)
}

/// The view of an optional string.
pub open spec fn opt_text(o: Option<String>) -> Option<Seq<char>> {
    match o {
        Some(s) => Some(s@),
        None => None,
    }
}

/// The number of characters from position `from` up to, and without, the next
/// line feed or the end of `s`.
pub open spec fn line_len(s: Seq<char>, from: int) -> nat
    decreases s.len() - from,
{
    if 0 <= from < s.len() && s[from] != '\n' {
        1 + line_len(s, from + 1)
    } else {
        0
    }
}

/// A line without the carriage return that stood before its line feed.
pub open spec fn without_cr(line: Seq<char>) -> Seq<char> {
    if line.len() > 0 && line.last() == '\r' {
        line.drop_last()
    } else {
        line
    }
}

/// The lines of `s` that begin at or after position `from`, where `from` is the
/// start of a line.
pub open spec fn lines_from(s: Seq<char>, from: int) -> Seq<Seq<char>>
    decreases s.len() - from,
{
    if from < 0 || from >= s.len() {
        Seq::empty()
    } else {
        let end = from + line_len(s, from);
        if end >= s.len() {
            seq![s.subrange(from, s.len() as int)]
        } else {
            seq![without_cr(s.subrange(from, end))] + lines_from(s, end + 1)
        }
    }
}

/// The lines of a text. A line ends at a line feed, or at a carriage return
/// directly followed by a line feed; the terminator is not part of the line.
/// A final terminator opens no further line, and the empty text has no line.
pub open spec fn split_lines(s: Seq<char>) -> Seq<Seq<char>> {
    lines_from(s, 0)
}

/// The parts in order, with `sep` between each two neighbours.
pub open spec fn joined(parts: Seq<Seq<char>>, sep: Seq<char>) -> Seq<char>
    decreases parts.len(),
{
    if parts.len() == 0 {
        Seq::empty()
    } else if parts.len() == 1 {
        parts[0]
    } else {
        joined(parts.drop_last(), sep) + sep + parts.last()
    }
}

/// A line that is free of line feeds up to `to`, where a line feed or the end
/// of the text stands, has exactly that length.
pub proof fn lemma_line_len(s: Seq<char>, from: int, to: int)
    requires
        0 <= from <= to <= s.len(),
        forall|k: int| from <= k < to ==> s[k] != '\n',
        to == s.len() || s[to] == '\n',
    ensures
        from + line_len(s, from) == to,
    decreases to - from,
{
    if from < to {
        lemma_line_len(s, from + 1, to);
    }
}

/// No line of a text holds a line feed.
pub proof fn lemma_lines_hold_no_line_feed(s: Seq<char>, from: int)
    requires
        0 <= from,
    ensures
        forall|i: int, k: int|
            #![trigger lines_from(s, from)[i][k]]
            0 <= i < lines_from(s, from).len() && 0 <= k < lines_from(s, from)[i].len()
                ==> lines_from(s, from)[i][k] != '\n',
    decreases s.len() - from,
{
    if from < s.len() {
        lemma_line_is_free(s, from);
        let end = from + line_len(s, from);
        if end < s.len() {
            lemma_lines_hold_no_line_feed(s, end + 1);
            let first = without_cr(s.subrange(from, end));
            let rest = lines_from(s, end + 1);
            assert forall|i: int, k: int|
                #![trigger lines_from(s, from)[i][k]]
                0 <= i < lines_from(s, from).len() && 0 <= k < lines_from(s, from)[i].len()
                implies lines_from(s, from)[i][k] != '\n' by {
                if i == 0 {
                    assert(first[k] == s[from + k]);
                } else {
                    assert(lines_from(s, from)[i] == rest[i - 1]);
                    assert(rest[i - 1][k] != '\n');
                }
            }
        } else {
            assert forall|i: int, k: int|
                #![trigger lines_from(s, from)[i][k]]
                0 <= i < lines_from(s, from).len() && 0 <= k < lines_from(s, from)[i].len()
                implies lines_from(s, from)[i][k] != '\n' by {
                assert(lines_from(s, from)[i][k] == s[from + k]);
            }
        }
    }
}

/// The characters that `line_len` counts from `from` on are no line feeds, and
/// the count ends at a line feed or at the end of the text.
pub proof fn lemma_line_is_free(s: Seq<char>, from: int)
    requires
        0 <= from <= s.len(),
    ensures
        from + line_len(s, from) <= s.len(),
        forall|k: int| from <= k < from + line_len(s, from) ==> s[k] != '\n',
        from + line_len(s, from) < s.len() ==> s[from + line_len(s, from)] == '\n',
    decreases s.len() - from,
{
    if from < s.len() && s[from] != '\n' {
        lemma_line_is_free(s, from + 1);
    }
}

/// Joining one more part appends the separator and the part.
pub proof fn lemma_joined_push(parts: Seq<Seq<char>>, sep: Seq<char>, last: Seq<char>)
    ensures
        joined(parts.push(last), sep) == if parts.len() == 0 {
            last
        } else {
            joined(parts, sep) + sep + last
        },
{
    assert(parts.push(last).drop_last() =~= parts);
}

/// Joining with a part in front puts the part and the separator in front.
pub proof fn lemma_joined_prepend(first: Seq<char>, rest: Seq<Seq<char>>, sep: Seq<char>)
    ensures
        joined(seq![first] + rest, sep) == if rest.len() == 0 {
            first
        } else {
            first + sep + joined(rest, sep)
        },
    decreases rest.len(),
{
    if rest.len() == 0 {
        assert(seq![first] + rest =~= seq![first]);
    } else {
        let all = seq![first] + rest;
        assert(all.drop_last() =~= seq![first] + rest.drop_last());
        assert(all.last() == rest.last());
        lemma_joined_prepend(first, rest.drop_last(), sep);
        if rest.len() == 1 {
            assert(rest.drop_last() =~= Seq::<Seq<char>>::empty());
            assert(joined(all, sep) =~= first + sep + joined(rest, sep));
        } else {
            assert(joined(all, sep) =~= first + sep + joined(rest, sep));
        }
    }
}

/// Whether no line feed of `s` has a carriage return before it.
pub open spec fn plain_line_ends(s: Seq<char>) -> bool {
    forall|k: int| 0 < k < s.len() && #[trigger] s[k] == '\n' ==> s[k - 1] != '\r'
}

/// A text without its final line feed, if it ends in one.
pub open spec fn without_final_line_feed(s: Seq<char>) -> Seq<char> {
    if s.len() > 0 && s.last() == '\n' {
        s.drop_last()
    } else {
        s
    }
}

/// The lines of the text from `from` on, joined by line feeds, are that text
/// but for a final line feed.
pub proof fn lemma_lines_rejoin_from(s: Seq<char>, from: int)
    requires
        0 <= from <= s.len(),
        plain_line_ends(s),
    ensures
        joined(lines_from(s, from), seq!['\n']) == without_final_line_feed(
            s.subrange(from, s.len() as int),
        ),
    decreases s.len() - from,
{
    let n = s.len() as int;
    let nl = seq!['\n'];
    if from < n {
        lemma_line_is_free(s, from);
        let end = from + line_len(s, from);
        if end >= n {
            assert(s.subrange(from, n).last() == s[n - 1]);
        } else {
            let first = s.subrange(from, end);
            let rest = lines_from(s, end + 1);
            assert(without_cr(first) == first) by {
                if first.len() > 0 {
                    assert(first.last() == s[end - 1]);
                }
            }
            lemma_lines_rejoin_from(s, end + 1);
            lemma_joined_prepend(first, rest, nl);
            if end + 1 >= n {
                assert(rest.len() == 0);
                assert(s.subrange(from, n).last() == s[end]);
                assert(s.subrange(from, n).drop_last() =~= first);
            } else {
                assert(rest.len() > 0);
                let tail = s.subrange(end + 1, n);
                assert(tail.last() == s[n - 1]);
                assert(s.subrange(from, n).last() == s[n - 1]);
                assert(s.subrange(from, n) =~= first + nl + tail);
                if s[n - 1] == '\n' {
                    assert(s.subrange(from, n).drop_last() =~= first + nl + tail.drop_last());
                }
            }
        }
    } else {
        assert(s.subrange(from, n) =~= Seq::<char>::empty());
    }
}

/// Splitting a text into lines and joining them by line feeds gives the text
/// back, but for a final line feed, where no carriage return stands before a
/// line feed.
pub proof fn lemma_lines_rejoin(s: Seq<char>)
    requires
        plain_line_ends(s),
    ensures
        joined(split_lines(s), seq!['\n']) == without_final_line_feed(s),
{
    lemma_lines_rejoin_from(s, 0);
    assert(s.subrange(0, s.len() as int) =~= s);
}

/// A copy of the strings, in order.
pub fn copy_texts(v: &Vec<String>) -> (r: Vec<String>)
    ensures
        texts(r@) == texts(v@),
{
    let mut out: Vec<String> = Vec::new();
    let mut i: usize = 0;
    while i < v.len()
        invariant
            i <= v.len(),
            texts(out@) == texts(v@).take(i as int),
        decreases v.len() - i,
    {
        let s = v[i].clone();
        proof {
            assert(s@ == v@[i as int]@);
            assert(texts(out@.push(s)) =~= texts(out@).push(s@));
            assert(texts(v@).take(i + 1) =~= texts(v@).take(i as int).push(v@[i as int]@));
        }
        out.push(s);
        i = i + 1;
    }
    proof {
        assert(texts(v@).take(v.len() as int) =~= texts(v@));
    }
    out
}

/// The characters of a string slice, in order.
pub fn chars_of(s: &str) -> (r: Vec<char>)
    ensures
        r@ == s@,
{
    let mut out: Vec<char> = Vec::new();
    let mut it = s.chars();
    let ghost mut i: int = 0;
    loop
        invariant_except_break
            0 <= i <= s@.len(),
            it.remaining() == s@.skip(i),
            out@ == s@.take(i),
        ensures
            out@ == s@,
        decreases s@.len() - i,
    {
        match it.next() {
            Some(c) => {
                out.push(c);
                proof {
                    assert(s@.take(i).push(s@[i]) =~= s@.take(i + 1));
                    assert(s@.skip(i).drop_first() =~= s@.skip(i + 1));
                    i = i + 1;
                }
            },
            None => {
                assert(s@.take(i) =~= s@);
                break ;
            },
        }
    }
    out
}

/// The string made of the characters `cs[from..to]`.
pub fn text_of(cs: &Vec<char>, from: usize, to: usize) -> (r: String)
    requires
        from <= to <= cs.len(),
    ensures
        r@ == cs@.subrange(from as int, to as int),
{
    let mut out = String::new();
    let mut i: usize = from;
    while i < to
        invariant
            from <= i <= to <= cs.len(),
            out@ == cs@.subrange(from as int, i as int),
        decreases to - i,
    {
        out.push(cs[i]);
        proof {
            assert(cs@.subrange(from as int, i as int).push(cs@[i as int]) =~= cs@.subrange(
                from as int,
                i + 1,
            ));
        }
        i = i + 1;
    }
    out
}

/// The lines of `s`, as `split_lines` defines them.
pub fn lines(s: &str) -> (r: Vec<String>)
    ensures
        texts(r@) == split_lines(s@),
{
    let cs = chars_of(s);
    let n: usize = cs.len();
    let mut out: Vec<String> = Vec::new();
    let mut start: usize = 0;
    let mut i: usize = 0;
    while i < n
        invariant
            cs@ == s@,
            n == cs.len(),
            start <= i <= n,
            forall|k: int| start <= k < i ==> cs@[k] != '\n',
            texts(out@) + lines_from(s@, start as int) == split_lines(s@),
        decreases n - i,
    {
        if cs[i] == '\n' {
            proof {
                lemma_line_len(s@, start as int, i as int);
            }
            let end: usize = if i > start && cs[i - 1] == '\r' {
                i - 1
            } else {
                i
            };
            let line = text_of(&cs, start, end);
            proof {
                let whole = s@.subrange(start as int, i as int);
                assert(line@ =~= without_cr(whole));
                assert(texts(out@.push(line)) =~= texts(out@).push(line@));
                assert(texts(out@).push(line@) + lines_from(s@, i + 1) =~= texts(out@) + (
                seq![line@] + lines_from(s@, i + 1)));
            }
            out.push(line);
            start = i + 1;
        }
        i = i + 1;
    }
    if start < n {
        proof {
            lemma_line_len(s@, start as int, n as int);
        }
        let line = text_of(&cs, start, n);
        proof {
            assert(texts(out@.push(line)) =~= texts(out@).push(line@));
            assert(texts(out@).push(line@) =~= texts(out@) + seq![line@]);
        }
        out.push(line);
    } else {
        assert(texts(out@) + Seq::<Seq<char>>::empty() =~= texts(out@));
    }
    out
}

/// The parts joined by `sep`, as `joined` defines it.
pub fn join(parts: &Vec<String>, sep: &str) -> (r: String)
    ensures
        r@ == joined(texts(parts@), sep@),
{
    let mut out = String::new();
    let mut i: usize = 0;
    while i < parts.len()
        invariant
            i <= parts.len(),
            out@ == joined(texts(parts@).take(i as int), sep@),
        decreases parts.len() - i,
    {
        proof {
            let ps = texts(parts@);
            assert(ps.take(i + 1) =~= ps.take(i as int).push(ps[i as int]));
            lemma_joined_push(ps.take(i as int), sep@, ps[i as int]);
            assert(Seq::<char>::empty() + parts@[i as int]@ =~= parts@[i as int]@);
        }
        if i > 0 {
            out.append(sep);
        }
        out.append(parts[i].as_str());
        i = i + 1;
    }
    proof {
        assert(texts(parts@).take(parts.len() as int) =~= texts(parts@));
    }
    out
}

} // verus!
