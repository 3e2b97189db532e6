//! Framing the audit trail: one record per line.
//!
//! The trail is text with one serialized record per line. The functions
//! here find the lines in the bytes of that text; turning a line into a
//! record is left to whoever reads the file. A line ends at a line feed or
//! at the end of the text; a carriage return just before the line feed
//! belongs to the line ending; after the last line feed no further, empty
//! line follows.

use vstd::prelude::*;

verus! {

/// The line feed.
pub const LF: u8 = 10;

/// The carriage return.
pub const CR: u8 = 13;

/// A byte that is white space on its own: tab, line feed, vertical tab,
/// form feed, carriage return or space.
pub open spec fn is_space(b: u8) -> bool {
    (9 <= b && b <= 13) || b == 32
}

/// The position of the first line feed at or after `from`, or the length of
/// `bytes` if none follows.
pub open spec fn line_end(bytes: Seq<u8>, from: int) -> int
    decreases bytes.len() - from,
{
    if from < 0 || from >= bytes.len() {
        bytes.len() as int
    } else if bytes[from] == LF {
        from
    } else {
        line_end(bytes, from + 1)
    }
}

/// Where the line that starts at `from` stops: at its line feed, or one
/// earlier if a carriage return stands just before the line feed, or at
/// the end of the text.
pub open spec fn line_stop(bytes: Seq<u8>, from: int) -> int {
    let end = line_end(bytes, from);
    if end < bytes.len() && from < end && bytes[end - 1] == CR {
        end - 1
    } else {
        end
    }
}

/// The lines of `bytes` from position `from` on, each as the positions
/// where it starts and stops.
pub open spec fn lines_from(bytes: Seq<u8>, from: int) -> Seq<(int, int)>
    decreases bytes.len() + 1 - from,
    via lines_from_terminates
{
    if from < 0 || from >= bytes.len() {
        Seq::empty()
    } else {
        seq![(from, line_stop(bytes, from))] + lines_from(bytes, line_end(bytes, from) + 1)
    }
}

#[via_fn]
proof fn lines_from_terminates(bytes: Seq<u8>, from: int) {
    if 0 <= from < bytes.len() {
        lemma_line_end_bounds(bytes, from);
    }
}

/// The line from `start` to `stop` holds nothing but white space.
pub open spec fn blank(bytes: Seq<u8>, start: int, stop: int) -> bool {
    forall|k: int| start <= k < stop ==> is_space(#[trigger] bytes[k])
}

/// The lines that hold more than white space.
pub open spec fn with_text(bytes: Seq<u8>) -> spec_fn((int, int)) -> bool {
    |line: (int, int)| !blank(bytes, line.0, line.1)
}

/// The spans of an executable listing as mathematical pairs.
pub open spec fn spans(lines: Seq<(usize, usize)>) -> Seq<(int, int)> {
    Seq::new(lines.len(), |i: int| (lines[i].0 as int, lines[i].1 as int))
}

/// A stretch without a line feed that ends at a line feed or at the end of
/// the text ends where `line_end` says.
proof fn lemma_line_end(bytes: Seq<u8>, from: int, end: int)
    requires
        0 <= from <= end <= bytes.len(),
        forall|k: int| from <= k < end ==> bytes[k] != LF,
        end == bytes.len() || bytes[end] == LF,
    ensures
        line_end(bytes, from) == end,
    decreases end - from,
{
    if from < end {
        lemma_line_end(bytes, from + 1, end);
    }
}

/// Every line lies within the text, starts no later than it stops, and
/// holds no line feed.
pub proof fn lemma_lines_within(bytes: Seq<u8>, from: int)
    requires
        0 <= from,
    ensures
        forall|i: int|
            0 <= i < lines_from(bytes, from).len() ==> {
                let line = #[trigger] lines_from(bytes, from)[i];
                &&& from <= line.0 <= line.1 <= bytes.len()
                &&& forall|k: int| line.0 <= k < line.1 ==> bytes[k] != LF
            },
    decreases bytes.len() + 1 - from,
{
    if from < bytes.len() {
        let end = line_end(bytes, from);
        lemma_line_end_bounds(bytes, from);
        lemma_lines_within(bytes, end + 1);
        let rest = lines_from(bytes, end + 1);
        let all = lines_from(bytes, from);
        assert forall|i: int| 0 <= i < all.len() implies {
            let line = #[trigger] all[i];
            &&& from <= line.0 <= line.1 <= bytes.len()
            &&& forall|k: int| line.0 <= k < line.1 ==> bytes[k] != LF
        } by {
            if i > 0 {
                assert(all[i] == rest[i - 1]);
            }
        }
    }
}

/// `line_end` lies between its start and the end of the text, and no line
/// feed stands before it.
proof fn lemma_line_end_bounds(bytes: Seq<u8>, from: int)
    requires
        0 <= from <= bytes.len(),
    ensures
        from <= line_end(bytes, from) <= bytes.len(),
        forall|k: int| from <= k < line_end(bytes, from) ==> bytes[k] != LF,
        line_end(bytes, from) == bytes.len() || bytes[line_end(bytes, from)] == LF,
    decreases bytes.len() - from,
{
    if from < bytes.len() && bytes[from] != LF {
        lemma_line_end_bounds(bytes, from + 1);
    }
}

/// Whether the bytes from `start` to `stop` are all white space.
pub fn is_blank(content: &[u8], start: usize, stop: usize) -> (r: bool)
    requires
        start <= stop <= content.len(),
    ensures
        r == blank(content@, start as int, stop as int),
{
    let mut k: usize = start;
    while k < stop
        invariant
            start <= k <= stop <= content.len(),
            forall|j: int| start <= j < k ==> is_space(#[trigger] content@[j]),
        decreases stop - k,
    {
        let b = content[k];
        if !((9 <= b && b <= 13) || b == 32) {
            return false;
        }
        k += 1;
    }
    true
}

/// The lines of `content`, in order, each as the positions where it starts
/// and stops.
pub fn line_spans(content: &[u8]) -> (lines: Vec<(usize, usize)>)
    ensures
        spans(lines@) == lines_from(content@, 0),
{
    let ghost bytes = content@;
    let mut lines: Vec<(usize, usize)> = Vec::new();
    let mut start: usize = 0;
    proof {
        assert(spans(lines@) + lines_from(bytes, 0) =~= lines_from(bytes, 0));
    }
    while start < content.len()
        invariant
            bytes == content@,
            start <= content.len(),
            spans(lines@) + lines_from(bytes, start as int) == lines_from(bytes, 0),
        decreases content.len() - start,
    {
        let mut end: usize = start;
        while end < content.len() && content[end] != LF
            invariant
                bytes == content@,
                start <= end <= content.len(),
                forall|k: int| start <= k < end ==> bytes[k] != LF,
            decreases content.len() - end,
        {
            end += 1;
        }
        proof {
            lemma_line_end(bytes, start as int, end as int);
        }
        let stop = if end < content.len() && start < end && content[end - 1] == CR {
            end - 1
        } else {
            end
        };
        let ghost before = lines@;
        lines.push((start, stop));
        proof {
            assert(spans(lines@) =~= spans(before) + seq![(start as int, stop as int)]);
            assert(spans(lines@) + lines_from(bytes, end + 1) =~= spans(before) + lines_from(
                bytes,
                start as int,
            ));
        }
        if end < content.len() {
            start = end + 1;
        } else {
            start = end;
        }
    }
    proof {
        assert(spans(lines@) + lines_from(bytes, start as int) =~= spans(lines@));
    }
    lines
}

/// The lines of `content` that hold more than white space, in order: the
/// lines that may hold a record.
pub fn record_spans(content: &[u8]) -> (lines: Vec<(usize, usize)>)
    ensures
        spans(lines@) == lines_from(content@, 0).filter(with_text(content@)),
{
    let ghost bytes = content@;
    let all = line_spans(content);
    let ghost every = spans(all@);
    let mut lines: Vec<(usize, usize)> = Vec::new();
    let mut i: usize = 0;
    proof {
        reveal(Seq::filter);
        lemma_lines_within(bytes, 0);
        assert(every.take(0).filter(with_text(bytes)) =~= Seq::<(int, int)>::empty());
        assert(spans(lines@) =~= Seq::<(int, int)>::empty());
    }
    while i < all.len()
        invariant
            bytes == content@,
            every == spans(all@),
            every == lines_from(bytes, 0),
            i <= all.len(),
            forall|j: int|
                0 <= j < every.len() ==> 0 <= (#[trigger] every[j]).0 <= every[j].1 <= bytes.len(),
            spans(lines@) == every.take(i as int).filter(with_text(bytes)),
        decreases all.len() - i,
    {
        let (start, stop) = all[i];
        proof {
            crate::select::lemma_filter_step(every, with_text(bytes), i as int);
            assert(every[i as int] == (start as int, stop as int));
        }
        if !is_blank(content, start, stop) {
            let ghost before = lines@;
            lines.push((start, stop));
            assert(spans(lines@) =~= spans(before).push((start as int, stop as int)));
        }
        i += 1;
    }
    proof {
        assert(every.take(i as int) =~= every);
    }
    lines
}

} // verus!
