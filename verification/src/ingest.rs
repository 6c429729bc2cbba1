//! The text-selection half of the sample source: splitting delimited text
//! into lines and keeping the data lines.
//!
//! A sample file carries one sample per line. The first `start_line` lines
//! are metadata and are skipped; after that, blank lines and lines opening
//! with the comment marker `#` are ignored, and every remaining line is a
//! data line holding the delimited numeric fields of one sample. Decoding
//! those fields is the caller's part; this module pins down exactly which
//! lines are data lines and in what order they appear.

use vstd::prelude::*;

verus! {

/// The line-feed byte that terminates a line.
pub const LINE_FEED: u8 = 10;

/// The carriage-return byte, stripped from the end of a line-feed-terminated
/// line.
pub const CARRIAGE_RETURN: u8 = 13;

/// The comment marker: a line opening with it is ignored.
pub const COMMENT_MARKER: u8 = 35;

/// Index of the first line feed in `s`, or `s.len()` if there is none.
pub open spec fn first_line_feed(s: Seq<u8>) -> int
    decreases s.len(),
{
    if s.len() == 0 {
        0
    } else if s[0] == LINE_FEED {
        0
    } else {
        1 + first_line_feed(s.drop_first())
    }
}

/// The first line feed lies within `[0, s.len()]`.
proof fn lemma_first_line_feed_bounds(s: Seq<u8>)
    ensures
        0 <= first_line_feed(s) <= s.len(),
    decreases s.len(),
{
    if s.len() != 0 && s[0] != LINE_FEED {
        lemma_first_line_feed_bounds(s.drop_first());
    }
}

/// The first line feed of `s` is the position of the first byte equal to
/// `LINE_FEED`, and `s.len()` when no byte is.
proof fn lemma_first_line_feed_at(s: Seq<u8>, k: int)
    requires
        0 <= k <= s.len(),
        forall|j: int| 0 <= j < k ==> s[j] != LINE_FEED,
        k < s.len() ==> s[k] == LINE_FEED,
    ensures
        first_line_feed(s) == k,
    decreases s.len(),
{
    if s.len() == 0 {
    } else if s[0] == LINE_FEED {
    } else {
        assert(forall|j: int| 0 <= j < k - 1 ==> s.drop_first()[j] == s[j + 1]);
        lemma_first_line_feed_at(s.drop_first(), k - 1);
    }
}

/// A line-feed-terminated line with its trailing carriage return removed.
pub open spec fn chomp(l: Seq<u8>) -> Seq<u8> {
    if l.len() > 0 && l[l.len() - 1] == CARRIAGE_RETURN {
        l.drop_last()
    } else {
        l
    }
}

/// The lines of `s`: maximal stretches separated by line feeds, each
/// line-feed-terminated stretch with a trailing carriage return removed. A
/// trailing line feed ends the last line rather than opening an empty one,
/// and empty input has no lines.
pub open spec fn split_lines(s: Seq<u8>) -> Seq<Seq<u8>>
    decreases s.len(),
    via split_lines_decreases
{
    if s.len() == 0 {
        Seq::<Seq<u8>>::empty()
    } else {
        let k: int = first_line_feed(s);
        if k == s.len() {
            seq![s]
        } else {
            seq![chomp(s.subrange(0, k))] + split_lines(s.skip(k + 1))
        }
    }
}

#[via_fn]
proof fn split_lines_decreases(s: Seq<u8>) {
    lemma_first_line_feed_bounds(s);
}

/// Whether a line is a data line: nonempty and not opening with the
/// comment marker.
pub open spec fn is_data_line(l: Seq<u8>) -> bool {
    l.len() > 0 && l[0] != COMMENT_MARKER
}

/// The data lines among `lines` once the first `skip` lines are dropped:
/// the non-blank, non-comment lines, in order.
pub open spec fn data_lines_of(lines: Seq<Seq<u8>>, skip: int) -> Seq<Seq<u8>>
    decreases lines.len(),
{
    if lines.len() == 0 {
        Seq::<Seq<u8>>::empty()
    } else if skip > 0 {
        data_lines_of(lines.drop_first(), skip - 1)
    } else if is_data_line(lines.first()) {
        seq![lines.first()] + data_lines_of(lines.drop_first(), 0)
    } else {
        data_lines_of(lines.drop_first(), 0)
    }
}

/// The data lines of raw file content: its lines, skipped and filtered.
pub open spec fn data_lines_spec(content: Seq<u8>, start_line: int) -> Seq<Seq<u8>> {
    data_lines_of(split_lines(content), start_line)
}

/// Splitting on a line feed at position `k`, with none before it, yields
/// the chomped prefix and then the lines of the remainder.
proof fn lemma_split_at_line_feed(s: Seq<u8>, k: int)
    requires
        0 <= k < s.len(),
        s[k] == LINE_FEED,
        forall|j: int| 0 <= j < k ==> s[j] != LINE_FEED,
    ensures
        split_lines(s) == seq![chomp(s.subrange(0, k))] + split_lines(s.skip(k + 1)),
{
    lemma_first_line_feed_at(s, k);
}

/// A nonempty stretch without line feeds is a single line, kept as it is.
proof fn lemma_split_no_line_feed(s: Seq<u8>)
    requires
        s.len() > 0,
        forall|j: int| 0 <= j < s.len() ==> s[j] != LINE_FEED,
    ensures
        split_lines(s) == seq![s],
{
    lemma_first_line_feed_at(s, s.len() as int);
}

/// An exact copy of a byte vector.
fn copy_bytes(src: &Vec<u8>) -> (r: Vec<u8>)
    ensures
        r@ == src@,
{
    let mut r: Vec<u8> = Vec::new();
    let mut i: usize = 0;
    while i < src.len()
        invariant
            0 <= i <= src@.len(),
            r@ == src@.subrange(0, i as int),
        decreases src@.len() - i,
    {
        r.push(src[i]);
        i = i + 1;
        assert(r@ =~= src@.subrange(0, i as int));
    }
    assert(r@ =~= src@);
    r
}

/// Splits raw content into its lines.
fn split_lines_exec(content: &Vec<u8>) -> (r: Vec<Vec<u8>>)
    ensures
        r.deep_view() == split_lines(content@),
{
    let n: usize = content.len();
    let mut out: Vec<Vec<u8>> = Vec::new();
    let mut cur: Vec<u8> = Vec::new();
    let mut pos: usize = 0;
    proof {
        assert(content@.skip(0) =~= content@);
        assert(cur@ =~= content@.subrange(0, 0));
        assert(out.deep_view() + split_lines(content@) =~= split_lines(content@));
    }
    while pos < n
        invariant
            n == content@.len(),
            cur@.len() <= pos <= n,
            cur@ == content@.subrange(pos - cur@.len(), pos as int),
            forall|k: int| pos - cur@.len() <= k < pos ==> content@[k] != LINE_FEED,
            split_lines(content@) == out.deep_view() + split_lines(
                content@.skip(pos - cur@.len()),
            ),
        decreases n - pos,
    {
        let ghost start: int = pos - cur@.len();
        let ghost curv: Seq<u8> = cur@;
        let ghost pre: Seq<Seq<u8>> = out.deep_view();
        let b: u8 = content[pos];
        if b == LINE_FEED {
            proof {
                let t = content@.skip(start);
                assert(forall|j: int| 0 <= j < t.len() ==> t[j] == content@[start + j]);
                lemma_split_at_line_feed(t, curv.len() as int);
                assert(t.subrange(0, curv.len() as int) =~= curv);
                assert(t.skip(curv.len() as int + 1) =~= content@.skip(pos + 1));
            }
            let mut line: Vec<u8> = cur;
            cur = Vec::new();
            if line.len() > 0 && line[line.len() - 1] == CARRIAGE_RETURN {
                line.pop();
            }
            assert(line@ == chomp(curv));
            out.push(line);
            pos = pos + 1;
            proof {
                assert(out.deep_view() =~~= pre.push(chomp(curv)));
                assert(pre.push(chomp(curv)) + split_lines(content@.skip(pos as int)) =~= pre + (
                seq![chomp(curv)] + split_lines(content@.skip(pos as int))));
                assert(cur@ =~= content@.subrange(pos as int, pos as int));
            }
        } else {
            cur.push(b);
            pos = pos + 1;
            assert(cur@ =~= content@.subrange(pos - cur@.len(), pos as int));
        }
    }
    if cur.len() > 0 {
        let ghost start: int = pos - cur@.len();
        let ghost pre: Seq<Seq<u8>> = out.deep_view();
        let ghost curv: Seq<u8> = cur@;
        proof {
            assert(content@.skip(start) =~= curv);
            lemma_split_no_line_feed(curv);
        }
        out.push(cur);
        proof {
            assert(out.deep_view() =~~= pre.push(curv));
            assert(pre.push(curv) =~= pre + seq![curv]);
        }
        return out;
    }
    proof {
        assert(content@.skip(pos as int) =~= Seq::<u8>::empty());
        assert(split_lines(Seq::<u8>::empty()) =~= Seq::<Seq<u8>>::empty());
        assert(out.deep_view() + Seq::<Seq<u8>>::empty() =~= out.deep_view());
    }
    out
}

/// Returns the data lines of `content` in file order: its lines with the
/// first `start_line` of them skipped, and blank and comment lines
/// dropped. Each returned line holds the delimited fields of one sample,
/// still undecoded.
pub fn data_lines(content: &Vec<u8>, start_line: usize) -> (r: Vec<Vec<u8>>)
    ensures
        r.deep_view() == data_lines_spec(content@, start_line as int),
{
    let lines: Vec<Vec<u8>> = split_lines_exec(content);
    let ghost all: Seq<Seq<u8>> = lines.deep_view();
    let mut out: Vec<Vec<u8>> = Vec::new();
    let mut idx: usize = 0;
    proof {
        assert(all.skip(0) =~= all);
        assert(out.deep_view() + data_lines_of(all, start_line as int) =~= data_lines_of(
            all,
            start_line as int,
        ));
    }
    while idx < lines.len()
        invariant
            all == lines.deep_view(),
            all.len() == lines@.len(),
            forall|k: int| 0 <= k < all.len() ==> all[k] == lines@[k]@,
            0 <= idx <= lines@.len(),
            data_lines_of(all, start_line as int) == out.deep_view() + data_lines_of(
                all.skip(idx as int),
                if idx < start_line {
                    start_line - idx
                } else {
                    0
                },
            ),
        decreases lines@.len() - idx,
    {
        proof {
            assert(all.skip(idx as int).len() == all.len() - idx);
            assert(all.skip(idx as int).first() == all[idx as int]);
            assert(all.skip(idx as int).drop_first() =~= all.skip(idx as int + 1));
        }
        let line: &Vec<u8> = &lines[idx];
        if idx >= start_line && line.len() > 0 && line[0] != COMMENT_MARKER {
            let ghost pre: Seq<Seq<u8>> = out.deep_view();
            let kept: Vec<u8> = copy_bytes(line);
            out.push(kept);
            proof {
                assert(out.deep_view() =~~= pre.push(all[idx as int]));
                assert(pre.push(all[idx as int]) + data_lines_of(all.skip(idx as int + 1), 0)
                    =~= pre + (seq![all[idx as int]] + data_lines_of(all.skip(idx as int + 1), 0)));
            }
        }
        idx = idx + 1;
    }
    proof {
        assert(all.skip(idx as int) =~= Seq::<Seq<u8>>::empty());
        assert(out.deep_view() + Seq::<Seq<u8>>::empty() =~= out.deep_view());
    }
    out
}

} // verus!
