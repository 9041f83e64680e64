//! The tail of the service's log, as shown to the user.
use vstd::prelude::*;
use crate::text::{chars_of, join_lines, join_ranges, line_ranges, text_lines};

verus! {

/// Upper bound on the number of log lines one request may ask for.
pub const MAX_TAIL_LINES: usize = 5000;

/// The number of lines a request for `requested` lines is served with.
pub fn clamp_tail_lines(requested: usize) -> (n: usize)
    ensures
        n == if requested < MAX_TAIL_LINES { requested } else { MAX_TAIL_LINES },
{
    if requested < MAX_TAIL_LINES {
        requested
    } else {
        MAX_TAIL_LINES
    }
}

/// Index of the first of the last `tail` of `count` lines.
pub open spec fn tail_start(count: nat, tail: nat) -> nat {
    if count > tail {
        (count - tail) as nat
    } else {
        0
    }
}

/// The last `tail` lines of `content`: all of them when it has fewer.
pub open spec fn log_tail(content: Seq<char>, tail: nat) -> Seq<Seq<char>> {
    let lines = text_lines(content);
    lines.skip(tail_start(lines.len(), tail) as int)
}

/// The log's content, or empty when it could not be read.
pub open spec fn log_text(content: Option<&str>) -> Seq<char> {
    match content {
        Some(c) => c@,
        None => Seq::<char>::empty(),
    }
}

/// The last `tail_lines` lines of the log `content`, joined with `\n`.
/// A log that could not be read (`None`) reads as empty.
pub fn read_log_tail(content: Option<&str>, tail_lines: usize) -> (tail: String)
    ensures
        tail@ == join_lines(log_tail(log_text(content), tail_lines as nat)),
{
    let cs = match content {
        Some(c) => chars_of(c),
        None => Vec::new(),
    };
    let ranges = line_ranges(&cs);
    let skip = if ranges.len() > tail_lines {
        ranges.len() - tail_lines
    } else {
        0
    };
    let out = join_ranges(&cs, &ranges, skip);
    proof {
        let lines = text_lines(cs@);
        let picked = Seq::new(
            (ranges.len() - skip) as nat,
            |k: int| cs@.subrange(ranges@[skip + k].0 as int, ranges@[skip + k].1 as int),
        );
        assert(picked =~= lines.skip(skip as int));
    }
    out
}

/// The tail holds `min(tail, count)` lines, and they are the last lines of
/// the log, in order.
pub proof fn lemma_log_tail_is_last_lines(content: Seq<char>, tail: nat)
    ensures
        log_tail(content, tail).len() == if text_lines(content).len() < tail {
            text_lines(content).len()
        } else {
            tail
        },
        forall|i: int|
            0 <= i < log_tail(content, tail).len() ==> #[trigger] log_tail(content, tail)[i]
                == text_lines(content)[text_lines(content).len() - log_tail(content, tail).len() + i],
{
}

/// The tail is taken from the whole log, however long it is: read from a
/// log `c`, the shown text is the last `min(n, count)` of all of `c`'s lines
/// joined with `\n`; a log that could not be read shows nothing.
pub proof fn lemma_tail_of_whole_log(c: &str, n: nat)
    ensures
        ({
            let lines = text_lines(c@);
            let k = if lines.len() < n {
                lines.len()
            } else {
                n
            };
            join_lines(log_tail(log_text(Some(c)), n)) == join_lines(
                lines.subrange(lines.len() - k, lines.len() as int),
            )
        }),
        join_lines(log_tail(log_text(None), n)) == Seq::<char>::empty(),
{
    assert(text_lines(Seq::<char>::empty()) =~= Seq::<Seq<char>>::empty());
    assert(log_tail(log_text(None), n) =~= Seq::<Seq<char>>::empty());
    let lines = text_lines(c@);
    assert(log_tail(log_text(Some(c)), n) =~= lines.subrange(lines.len() - (if lines.len() < n {
        lines.len()
    } else {
        n
    }), lines.len() as int));
}

} // verus!
