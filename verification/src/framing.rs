//! CRLF framing of a request head. The caller buffers bytes off its stream;
//! these functions decide when the head (request line, header lines, blank
//! line) is complete and split it into CRLF-terminated lines with the line
//! endings stripped.
use vstd::prelude::*;

use crate::bytes::copy_range;

verus! {

/// Cap on the buffered head: a head that grows past this without its blank
/// line is treated as malformed, so a broken or hostile client cannot force
/// unbounded buffering.
pub const MAX_HEAD_LEN: usize = 8192;

/// A CRLF pair stands at index `i` of `s`.
pub open spec fn crlf_at(s: Seq<u8>, i: int) -> bool {
    0 <= i && i + 1 < s.len() && s[i] == 13 && s[i + 1] == 10
}

/// The head terminator (CRLF CRLF) stands at index `i` of `s`.
pub open spec fn head_terminator_at(s: Seq<u8>, i: int) -> bool {
    0 <= i && i + 3 < s.len() && s[i] == 13 && s[i + 1] == 10 && s[i + 2] == 13 && s[i + 3] == 10
}

/// What the buffered bytes say about the request head so far.
pub enum HeadStatus {
    /// The head is complete; carries the index just past its terminating
    /// blank line.
    Complete(usize),
    /// No terminator yet and the buffer is still under the cap: read more.
    NeedMore,
    /// No terminator within `MAX_HEAD_LEN` bytes: the head is malformed.
    TooLong,
}

/// Classify the buffered bytes: complete head (ending at the first CRLF CRLF),
/// more bytes needed, or over the cap without a terminator.
pub fn head_status(buf: &Vec<u8>) -> (r: HeadStatus)
    ensures
        r matches HeadStatus::Complete(e) ==> 4 <= e <= buf@.len() && head_terminator_at(
            buf@,
            e - 4,
        ) && (forall|j: int| 0 <= j < e - 4 ==> !head_terminator_at(buf@, j)),
        r is NeedMore ==> (forall|j: int| !head_terminator_at(buf@, j)) && buf@.len()
            < MAX_HEAD_LEN,
        r is TooLong ==> (forall|j: int| !head_terminator_at(buf@, j)) && buf@.len()
            >= MAX_HEAD_LEN,
{
    let n: usize = buf.len();
    if n < 4 {
        if n >= MAX_HEAD_LEN {
            return HeadStatus::TooLong;
        }
        return HeadStatus::NeedMore;
    }
    let mut i: usize = 0;
    while i + 3 < n
        invariant
            0 <= i,
            i + 3 <= n,
            n == buf@.len(),
            forall|j: int| 0 <= j < i ==> !head_terminator_at(buf@, j),
        decreases n - i,
    {
        if buf[i] == 13 && buf[i + 1] == 10 && buf[i + 2] == 13 && buf[i + 3] == 10 {
            return HeadStatus::Complete(i + 4);
        }
        i = i + 1;
    }
    proof {
        assert(forall|j: int| j >= i ==> !head_terminator_at(buf@, j));
    }
    if n >= MAX_HEAD_LEN {
        HeadStatus::TooLong
    } else {
        HeadStatus::NeedMore
    }
}

/// A framed head: where it ends and its lines, or what still stands in the
/// way.
pub enum FramedHead {
    /// The head is complete: `end` is the index just past its blank line,
    /// `lines` its CRLF-split lines with the endings stripped.
    Ready { end: usize, lines: Vec<Vec<u8>> },
    /// No terminator yet and the buffer is still under the cap: read more.
    NeedMore,
    /// No terminator within `MAX_HEAD_LEN` bytes: the head is malformed.
    TooLong,
}

/// Classify the buffered bytes and, when the head is complete, split it into
/// lines in one step.
pub fn frame_head(buf: &Vec<u8>) -> (r: FramedHead)
    ensures
        r matches FramedHead::Ready { end, lines } ==> (4 <= end <= buf@.len()
            && head_terminator_at(buf@, end - 4) && (forall|j: int|
            0 <= j < end - 4 ==> !head_terminator_at(buf@, j)) && join_crlf(lines@)
            == buf@.subrange(0, end - 2) && (forall|k: int, t: int|
            0 <= k < lines@.len() ==> !crlf_at(lines@[k]@, t))),
        r is NeedMore ==> (forall|j: int| !head_terminator_at(buf@, j)) && buf@.len()
            < MAX_HEAD_LEN,
        r is TooLong ==> (forall|j: int| !head_terminator_at(buf@, j)) && buf@.len()
            >= MAX_HEAD_LEN,
{
    match head_status(buf) {
        HeadStatus::Complete(end) => {
            let lines = split_head_lines(buf, end);
            FramedHead::Ready { end, lines }
        },
        HeadStatus::NeedMore => FramedHead::NeedMore,
        HeadStatus::TooLong => FramedHead::TooLong,
    }
}

/// Take the request body out of the buffer: exactly `length` bytes starting
/// right after the head. `None` while the buffer holds fewer bytes than the
/// declared length; the caller then reads more, and a stream that closes
/// first means the body was cut short.
pub fn extract_body(buf: &Vec<u8>, head_end: usize, length: usize) -> (r: Option<Vec<u8>>)
    ensures
        match r {
            Some(b) => head_end + length <= buf@.len() && b@ == buf@.subrange(
                head_end as int,
                head_end + length,
            ),
            None => head_end + length > buf@.len(),
        },
{
    if head_end > buf.len() || length > buf.len() - head_end {
        None
    } else {
        Some(copy_range(buf, head_end, head_end + length))
    }
}

/// The lines joined back with a CRLF after each one.
pub open spec fn join_crlf(lines: Seq<Vec<u8>>) -> Seq<u8>
    decreases lines.len(),
{
    if lines.len() == 0 {
        Seq::empty()
    } else {
        join_crlf(lines.drop_last()) + lines.last()@ + seq![13u8, 10u8]
    }
}

/// A non-empty line sequence joins to at least one CRLF.
proof fn lemma_join_crlf_len(ls: Seq<Vec<u8>>)
    requires
        ls.len() > 0,
    ensures
        join_crlf(ls).len() >= 2,
        join_crlf(ls)[join_crlf(ls).len() - 2] == 13,
        join_crlf(ls)[join_crlf(ls).len() - 1] == 10,
{
}

/// CRLF framing is unambiguous: two line sequences with no CRLF inside any
/// line and the same joined form are the same lines. So the lines
/// `split_head_lines` returns are the only ones its contract admits.
pub proof fn lemma_join_crlf_unambiguous(l1: Seq<Vec<u8>>, l2: Seq<Vec<u8>>)
    requires
        forall|k: int, t: int| 0 <= k < l1.len() ==> !crlf_at(l1[k]@, t),
        forall|k: int, t: int| 0 <= k < l2.len() ==> !crlf_at(l2[k]@, t),
        join_crlf(l1) == join_crlf(l2),
    ensures
        l1.len() == l2.len(),
        forall|k: int| 0 <= k < l1.len() ==> l1[k]@ == l2[k]@,
    decreases l1.len(),
{
    if l1.len() == 0 {
        if l2.len() > 0 {
            lemma_join_crlf_len(l2);
        }
    } else if l2.len() == 0 {
        lemma_join_crlf_len(l1);
    } else {
        let j = join_crlf(l1);
        let a1 = join_crlf(l1.drop_last());
        let x1 = l1.last()@;
        let a2 = join_crlf(l2.drop_last());
        let x2 = l2.last()@;
        assert(j == a1 + x1 + seq![13u8, 10u8]);
        assert(j == a2 + x2 + seq![13u8, 10u8]);
        lemma_join_prefix_len_eq(l1, l2, a1, x1, a2, x2);
        lemma_join_prefix_len_eq(l2, l1, a2, x2, a1, x1);
        assert(a1.len() == a2.len());
        assert(x1 =~= j.subrange(a1.len() as int, j.len() - 2));
        assert(x2 =~= j.subrange(a2.len() as int, j.len() - 2));
        assert(a1 =~= j.subrange(0, a1.len() as int));
        assert(a2 =~= j.subrange(0, a2.len() as int));
        assert(forall|k: int, t: int|
            0 <= k < l1.drop_last().len() ==> !(#[trigger] crlf_at(l1.drop_last()[k]@, t)));
        assert(forall|k: int, t: int|
            0 <= k < l2.drop_last().len() ==> !(#[trigger] crlf_at(l2.drop_last()[k]@, t)));
        lemma_join_crlf_unambiguous(l1.drop_last(), l2.drop_last());
        assert forall|k: int| 0 <= k < l1.len() implies l1[k]@ == l2[k]@ by {
            if k < l1.len() - 1 {
                assert(l1.drop_last()[k]@ == l2.drop_last()[k]@);
            }
        }
    }
}

/// Helper for the unambiguity proof: the shorter of the two join prefixes
/// cannot be strictly shorter, else the other decomposition's last line
/// would hold a CRLF of its own.
proof fn lemma_join_prefix_len_eq(
    l1: Seq<Vec<u8>>,
    l2: Seq<Vec<u8>>,
    a1: Seq<u8>,
    x1: Seq<u8>,
    a2: Seq<u8>,
    x2: Seq<u8>,
)
    requires
        l1.len() > 0,
        l2.len() > 0,
        forall|k: int, t: int| 0 <= k < l1.len() ==> !crlf_at(l1[k]@, t),
        a1 == join_crlf(l1.drop_last()),
        x1 == l1.last()@,
        a2 == join_crlf(l2.drop_last()),
        x2 == l2.last()@,
        join_crlf(l1) == join_crlf(l2),
    ensures
        a1.len() >= a2.len(),
{
    let j = join_crlf(l1);
    assert(j == a1 + x1 + seq![13u8, 10u8]);
    assert(j == a2 + x2 + seq![13u8, 10u8]);
    if a1.len() < a2.len() {
        // a2 is non-empty, so it ends with a CRLF pair
        if l2.drop_last().len() == 0 {
            assert(a2.len() == 0);
        } else {
            lemma_join_crlf_len(l2.drop_last());
        }
        assert(a2[a2.len() - 2] == 13 && a2[a2.len() - 1] == 10);
        assert(forall|i: int| 0 <= i < a2.len() ==> j[i] == a2[i]);
        if a2.len() == a1.len() + 1 {
            // the CRLF ending a2 would have to start on a1's last byte,
            // which is a LF
            if l1.drop_last().len() == 0 {
                assert(a1.len() == 0);
                lemma_join_crlf_len(l2.drop_last());
                assert(a2.len() >= 2);
            } else {
                lemma_join_crlf_len(l1.drop_last());
                assert(a1[a1.len() - 1] == 10);
                assert(j[a1.len() - 1] == 10);
                assert(j[a2.len() - 2] == 13);
            }
        } else {
            // the CRLF ending a2 falls inside x1
            let t = a2.len() - 2 - a1.len();
            assert(x1.len() == j.len() - 2 - a1.len());
            assert(x2.len() >= 0);
            assert(j.len() == a2.len() + x2.len() + 2);
            assert(x1[t] == j[a2.len() - 2] && x1[t + 1] == j[a2.len() - 1]);
            assert(crlf_at(x1, t));
            assert(!crlf_at(l1[l1.len() - 1]@, t));
        }
    }
}
/// terminating blank line is not among them. Joining the lines back with
/// CRLFs reproduces the head region exactly, and no line holds a CRLF of
/// its own, so the split is the only one possible.
pub fn split_head_lines(buf: &Vec<u8>, e: usize) -> (r: Vec<Vec<u8>>)
    requires
        4 <= e <= buf@.len(),
        head_terminator_at(buf@, e - 4),
        forall|j: int| 0 <= j < e - 4 ==> !head_terminator_at(buf@, j),
    ensures
        join_crlf(r@) == buf@.subrange(0, e - 2),
        forall|k: int, t: int| 0 <= k < r@.len() ==> !crlf_at(r@[k]@, t),
{
    let mut lines: Vec<Vec<u8>> = Vec::new();
    let mut pos: usize = 0;
    while pos < e - 2
        invariant
            4 <= e <= buf@.len(),
            head_terminator_at(buf@, e - 4),
            0 <= pos <= e - 2,
            pos < e - 2 ==> pos <= e - 4,
            join_crlf(lines@) == buf@.subrange(0, pos as int),
            forall|k: int, t: int| 0 <= k < lines@.len() ==> !crlf_at(lines@[k]@, t),
        decreases e - pos,
    {
        let mut j: usize = pos;
        while !(buf[j] == 13 && buf[j + 1] == 10)
            invariant
                4 <= e <= buf@.len(),
                head_terminator_at(buf@, e - 4),
                pos <= j <= e - 4,
                forall|t: int| pos <= t < j ==> !(#[trigger] buf@[t] == 13 && buf@[t + 1] == 10),
            decreases e - 4 - j,
        {
            proof {
                assert(buf@[e - 4] == 13 && buf@[e - 3] == 10);
            }
            j = j + 1;
        }
        let line = copy_range(buf, pos, j);
        proof {
            assert(forall|t: int| #![trigger line@[t]]
                0 <= t && t + 1 < line@.len() ==> line@[t] == buf@[pos + t] && line@[t + 1]
                    == buf@[pos + t + 1]);
            assert(forall|t: int| !crlf_at(line@, t));
        }
        let ghost old_lines = lines@;
        lines.push(line);
        proof {
            assert(lines@.drop_last() =~= old_lines);
            assert(join_crlf(lines@) == join_crlf(old_lines) + line@ + seq![13u8, 10u8]);
            assert(buf@.subrange(0, pos as int) + line@ + seq![13u8, 10u8] =~= buf@.subrange(
                0,
                j + 2,
            ));
            // the new start cannot fall on the terminator's LF
            if j + 2 < e - 2 && j + 2 > e - 4 {
                assert(j == e - 5);
                assert(buf@[e - 4] == 13);
                assert(false);
            }
        }
        pos = j + 2;
    }
    proof {
        assert(buf@.subrange(0, pos as int) =~= buf@.subrange(0, e - 2));
    }
    lines
}

} // verus!
