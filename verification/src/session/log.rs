//! The log of a session: one record on each line, only ever added to. A crash can leave half a
//! line at the end; reading stops at the first line that is no record.
use vstd::prelude::*;
use vstd::string::*;
use vstd::utf8::*;

use crate::file_lock::FileLock;
use crate::message::Message;
use crate::session;
use crate::session::{LaneId, NodeId, SessionEntry, SessionError, SessionTree};
use crate::text;
use crate::tools::files;

verus! {

/// Where the head of a lane is; `None` while the lane has no node yet.
#[derive(Debug, Clone, PartialEq)]
pub struct LaneHeadRecord {
    pub lane_id: LaneId,
    pub head: Option<NodeId>,
}

/// A line of the log.
#[derive(Debug, Clone, PartialEq)]
pub enum SessionRecord {
    Message(SessionEntry),
    LaneHead(LaneHeadRecord),
}

/// The byte that ends a line.
pub const NEWLINE: u8 = 10;

/// A line of a text: its content from `start` up to `end`, and where the next line begins.
#[derive(Debug, Clone, Copy, PartialEq, Eq, Structural)]
pub struct LineSpan {
    pub start: usize,
    pub end: usize,
    pub next: usize,
}

/// Whether `bytes` holds no end of line.
pub open spec fn one_line(bytes: Seq<u8>) -> bool {
    forall|i: int| 0 <= i < bytes.len() ==> (#[trigger] bytes[i]) != NEWLINE
}

/// Whether `span` is the line of `bytes` that begins at `start`. The last line may have no end.
pub open spec fn is_line(bytes: Seq<u8>, span: LineSpan, start: int) -> bool {
    &&& span.start == start
    &&& span.start <= span.end <= bytes.len()
    &&& one_line(bytes.subrange(span.start as int, span.end as int))
    &&& if span.end < bytes.len() {
        bytes[span.end as int] == NEWLINE && span.next == span.end + 1
    } else {
        span.next == bytes.len()
    }
}

/// Whether `spans` are the lines of `bytes` before `upto`, one after the other.
pub open spec fn are_lines(bytes: Seq<u8>, spans: Seq<LineSpan>, upto: int) -> bool {
    &&& spans.len() == 0 ==> upto == 0
    &&& spans.len() > 0 ==> spans[0].start == 0 && spans.last().next == upto
    &&& forall|i: int|
        #![trigger spans[i]]
        0 <= i < spans.len() ==> is_line(bytes, spans[i], spans[i].start as int) && spans[i].start
            < bytes.len()
    &&& forall|i: int|
        #![trigger spans[i]]
        0 < i < spans.len() ==> spans[i].start == spans[i - 1].next
}

/// Splits a log into lines.
pub fn split_lines(bytes: &[u8]) -> (r: Vec<LineSpan>)
    ensures
        are_lines(bytes@, r@, bytes@.len() as int),
{
    let mut spans: Vec<LineSpan> = Vec::new();
    let mut pos: usize = 0;
    while pos < bytes.len()
        invariant
            pos <= bytes@.len(),
            are_lines(bytes@, spans@, pos as int),
        decreases bytes@.len() - pos,
    {
        let mut end: usize = pos;
        while end < bytes.len() && bytes[end] != NEWLINE
            invariant
                pos <= end <= bytes@.len(),
                forall|i: int| pos <= i < end ==> (#[trigger] bytes@[i]) != NEWLINE,
            decreases bytes@.len() - end,
        {
            end += 1;
        }
        let next: usize = if end < bytes.len() {
            end + 1
        } else {
            end
        };
        let ghost before = spans@;
        spans.push(LineSpan { start: pos, end, next });
        proof {
            assert(spans@ == before.push(LineSpan { start: pos, end, next }));
            let line = bytes@.subrange(pos as int, end as int);
            assert forall|i: int| 0 <= i < line.len() implies (#[trigger] line[i]) != NEWLINE by {
                assert(bytes@[pos + i] != NEWLINE);
            }
            assert forall|i: int|
                #![trigger spans@[i]]
                0 <= i < spans@.len() implies is_line(bytes@, spans@[i], spans@[i].start as int)
                && spans@[i].start < bytes@.len() by {
                if i < before.len() {
                    assert(spans@[i] == before[i]);
                }
            }
            assert forall|i: int|
                #![trigger spans@[i]]
                0 < i < spans@.len() implies spans@[i].start == spans@[i - 1].next by {
                if i < before.len() {
                    assert(spans@[i] == before[i]);
                    assert(spans@[i - 1] == before[i - 1]);
                } else {
                    assert(spans@[i - 1] == before[i - 1]);
                }
            }
            if before.len() > 0 {
                assert(spans@[0] == before[0]);
            }
        }
        pos = next;
    }
    spans
}

/// A log whose lines are `lines`, each ended.
pub open spec fn framed(lines: Seq<Seq<u8>>) -> Seq<u8>
    decreases lines.len(),
{
    if lines.len() == 0 {
        Seq::empty()
    } else {
        framed(lines.drop_last()) + lines.last().push(NEWLINE)
    }
}

/// What is on the line `span`.
pub open spec fn line_at(bytes: Seq<u8>, span: LineSpan) -> Seq<u8> {
    bytes.subrange(span.start as int, span.end as int)
}

/// Splitting a log gives back the lines that were written, in order. Behind them, half a line that
/// a crash left makes up one more line by itself, and changes none of the others.
pub proof fn law_written_lines_are_read_back(
    lines: Seq<Seq<u8>>,
    tail: Seq<u8>,
    spans: Seq<LineSpan>,
)
    requires
        forall|i: int| 0 <= i < lines.len() ==> one_line(#[trigger] lines[i]),
        one_line(tail),
        are_lines(framed(lines) + tail, spans, (framed(lines) + tail).len() as int),
    ensures
        spans.len() == lines.len() + (if tail.len() > 0 {
            1int
        } else {
            0int
        }),
        forall|i: int|
            0 <= i < lines.len() ==> line_at(framed(lines) + tail, #[trigger] spans[i])
                == lines[i] && spans[i].next == framed(lines.take(i + 1)).len(),
        tail.len() > 0 ==> line_at(framed(lines) + tail, spans[lines.len() as int]) == tail,
{
    let bytes = framed(lines) + tail;
    assert forall|n: int| 0 <= n <= lines.len() implies #[trigger] lines_agree(
        lines,
        tail,
        spans,
        n,
    ) by {
        lemma_lines_agree(lines, tail, spans, n);
    }
    assert(lines_agree(lines, tail, spans, lines.len() as int));
    assert(lines.take(lines.len() as int) =~= lines);
    let n = lines.len() as int;
    if tail.len() > 0 {
        assert(spans.len() > n) by {
            if spans.len() == n && n > 0 {
                assert(spans[n - 1].next == framed(lines.take(n)).len());
            }
        }
        let s = spans[n];
        assert(s.start == framed(lines).len()) by {
            if n > 0 {
                assert(s.start == spans[n - 1].next);
                assert(spans[n - 1].next == framed(lines.take(n)).len());
            }
        }
        assert(is_line(bytes, s, s.start as int));
        if s.end < bytes.len() {
            assert(bytes[s.end as int] == tail[s.end - framed(lines).len()]);
        }
        assert(line_at(bytes, s) =~= tail);
        if spans.len() > n + 1 {
            assert(spans[n + 1].start == spans[n].next);
            assert(spans[n + 1].start < bytes.len());
        }
    } else {
        assert(bytes =~= framed(lines));
        if spans.len() > n {
            if n > 0 {
                assert(spans[n].start == spans[n - 1].next);
                assert(spans[n - 1].next == framed(lines.take(n)).len());
            }
            assert(spans[n].start < bytes.len());
        }
    }
    assert forall|i: int| 0 <= i < lines.len() implies line_at(bytes, #[trigger] spans[i])
        == lines[i] && spans[i].next == framed(lines.take(i + 1)).len() by {
        assert(lines_agree(lines, tail, spans, i + 1));
    }
}

/// Cutting a log behind its last whole line takes away what a crash left, and nothing else.
pub proof fn law_repair_keeps_whole_lines(
    lines: Seq<Seq<u8>>,
    tail: Seq<u8>,
    spans: Seq<LineSpan>,
    len: nat,
)
    requires
        forall|i: int| 0 <= i < lines.len() ==> one_line(#[trigger] lines[i]),
        one_line(tail),
        are_lines(framed(lines) + tail, spans, (framed(lines) + tail).len() as int),
        len == (if lines.len() == 0 {
            0
        } else {
            spans[lines.len() - 1].next as nat
        }),
    ensures
        len == framed(lines).len(),
        (framed(lines) + tail).take(len as int) == framed(lines),
{
    law_written_lines_are_read_back(lines, tail, spans);
    assert(lines.take(lines.len() as int) =~= lines);
    if lines.len() > 0 {
        assert(spans[lines.len() - 1].next == framed(lines.take(lines.len() as int)).len());
    }
    assert((framed(lines) + tail).take(len as int) =~= framed(lines));
}

/// Whether the first `n` lines are read back as they were written.
spec fn lines_agree(
    lines: Seq<Seq<u8>>,
    tail: Seq<u8>,
    spans: Seq<LineSpan>,
    n: int,
) -> bool {
    &&& spans.len() >= n
    &&& n > 0 ==> line_at(framed(lines) + tail, spans[n - 1]) == lines[n - 1]
    &&& n > 0 ==> spans[n - 1].next == framed(lines.take(n)).len()
}

proof fn lemma_framed_take(lines: Seq<Seq<u8>>, n: int)
    requires
        0 <= n < lines.len(),
    ensures
        framed(lines.take(n + 1)) == framed(lines.take(n)) + lines[n].push(NEWLINE),
        framed(lines.take(n)).len() <= framed(lines).len(),
        framed(lines.take(n + 1)).len() <= framed(lines).len(),
        framed(lines).subrange(
            framed(lines.take(n)).len() as int,
            framed(lines.take(n + 1)).len() as int,
        ) == lines[n].push(NEWLINE),
    decreases lines.len(),
{
    let t = lines.take(n + 1);
    assert(t.drop_last() =~= lines.take(n));
    assert(t.last() == lines[n]);
    if n + 1 == lines.len() {
        assert(t =~= lines);
        assert(framed(lines).subrange(
            framed(lines.take(n)).len() as int,
            framed(t).len() as int,
        ) =~= lines[n].push(NEWLINE));
    } else {
        let init = lines.drop_last();
        lemma_framed_take(init, n);
        assert(init.take(n + 1) =~= t);
        assert(init.take(n) =~= lines.take(n));
        assert(framed(lines) =~= framed(init) + lines.last().push(NEWLINE));
        assert(framed(lines).subrange(
            framed(lines.take(n)).len() as int,
            framed(t).len() as int,
        ) =~= framed(init).subrange(
            framed(lines.take(n)).len() as int,
            framed(t).len() as int,
        ));
    }
}

proof fn lemma_lines_agree(lines: Seq<Seq<u8>>, tail: Seq<u8>, spans: Seq<LineSpan>, n: int)
    requires
        forall|i: int| 0 <= i < lines.len() ==> one_line(#[trigger] lines[i]),
        one_line(tail),
        are_lines(framed(lines) + tail, spans, (framed(lines) + tail).len() as int),
        0 <= n <= lines.len(),
    ensures
        lines_agree(lines, tail, spans, n),
    decreases n,
{
    if n > 0 {
        let bytes = framed(lines) + tail;
        let k = n - 1;
        lemma_lines_agree(lines, tail, spans, k);
        lemma_framed_take(lines, k);
        let from = framed(lines.take(k)).len() as int;
        let line = lines[k];
        let piece = line.push(NEWLINE);
        assert(framed(lines.take(k + 1)).len() == from + piece.len());
        assert forall|j: int| 0 <= j < piece.len() implies bytes[from + j] == piece[j] by {
            assert(framed(lines).subrange(from, from + piece.len())[j] == framed(lines)[from + j]);
        }
        assert(spans.len() > k) by {
            if spans.len() == k {
                if k > 0 {
                    assert(spans.last() == spans[k - 1]);
                } else {
                    assert(lines.take(0) =~= Seq::<Seq<u8>>::empty());
                }
                assert(from == bytes.len());
            }
        }
        let s = spans[k];
        assert(s.start == from) by {
            if k > 0 {
                assert(s.start == spans[k - 1].next);
            } else {
                assert(lines.take(0) =~= Seq::<Seq<u8>>::empty());
            }
        }
        assert(is_line(bytes, s, s.start as int));
        assert(bytes[from + line.len()] == piece[line.len() as int]);
        assert(s.end == from + line.len()) by {
            if s.end < from + line.len() {
                if s.end < bytes.len() {
                    assert(bytes[s.end as int] == piece[s.end - from]);
                    assert(line[s.end - from] != NEWLINE);
                }
            }
            if s.end > from + line.len() {
                let content = bytes.subrange(s.start as int, s.end as int);
                assert(content[line.len() as int] == NEWLINE);
            }
        }
        assert(line_at(bytes, s) =~= line) by {
            assert forall|j: int| 0 <= j < line.len() implies line_at(bytes, s)[j] == line[j] by {
                assert(bytes[from + j] == piece[j]);
            }
        }
    }
}

/// How many records there are before the first line that is none.
pub open spec fn leading(parsed: Seq<Option<SessionRecord>>, n: int) -> bool {
    &&& 0 <= n <= parsed.len()
    &&& forall|i: int| 0 <= i < n ==> (#[trigger] parsed[i]) is Some
    &&& n < parsed.len() ==> parsed[n] is None
}

/// The records of a log whose lines were read as `parsed`: those before the first line that is no
/// record. That line and everything behind it are left out.
pub fn read_records(parsed: Vec<Option<SessionRecord>>) -> (r: Vec<SessionRecord>)
    ensures
        leading(parsed@, r@.len() as int),
        forall|i: int| 0 <= i < r@.len() ==> parsed@[i] == Some(#[trigger] r@[i]),
{
    let ghost all = parsed@;
    let mut out: Vec<SessionRecord> = Vec::new();
    let mut stopped = false;
    let mut n: Ghost<int> = Ghost(0);
    for p in it: parsed
        invariant
            all == it.seq(),
            n@ == it.index(),
            0 <= n@ <= all.len(),
            out@.len() <= n@,
            forall|i: int| 0 <= i < out@.len() ==> all[i] == Some(#[trigger] out@[i]),
            !stopped ==> out@.len() == n@,
            stopped ==> out@.len() < n@ && all[out@.len() as int] is None,
    {
        assert(p == all[n@]);
        if !stopped {
            match p {
                Some(record) => {
                    out.push(record);
                },
                None => {
                    stopped = true;
                },
            }
        }
        proof {
            n@ = n@ + 1;
        }
    }
    proof {
        assert forall|i: int| 0 <= i < out@.len() implies (#[trigger] all[i]) is Some by {
            assert(all[i] == Some(out@[i]));
        }
    }
    out
}

/// Whether reading may stop behind the first `count` lines: at the end of the log, at a line that
/// is text but no record, or at half a line that a crash left, which need not be text. A whole line
/// that is not text is an error of the file.
pub fn check_stop(bytes: &[u8], spans: &[LineSpan], count: usize) -> (r: Result<(), SessionError>)
    requires
        are_lines(bytes@, spans@, bytes@.len() as int),
        count <= spans@.len(),
    ensures
        ({
            let torn = count < spans@.len() && spans@[count as int].end < bytes@.len()
                && !valid_utf8(line_at(bytes@, spans@[count as int]));
            &&& torn ==> (r matches Err(SessionError::Io(e)) && e@
                == "stream did not contain valid UTF-8"@)
            &&& !torn ==> r is Ok
        }),
{
    if count < spans.len() && spans[count].end < bytes.len() {
        let span = spans[count];
        assert(is_line(bytes@, span, span.start as int));
        let line = vstd::slice::slice_subrange(bytes, span.start, span.end);
        if !files::is_utf8(line) {
            return Err(SessionError::Io("stream did not contain valid UTF-8".to_owned()));
        }
    }
    Ok(())
}

/// The length of the log up to and with its first `count` lines, which are those that were read as
/// records: what is behind it is left from a crash. A last line that was read as a record counts
/// though it has no end.
pub fn valid_len(spans: &[LineSpan], count: usize) -> (r: u64)
    requires
        count <= spans@.len(),
    ensures
        r == (if count == 0 {
            0
        } else {
            spans@[count - 1].next
        }),
{
    if count == 0 {
        0
    } else {
        spans[count - 1].next as u64
    }
}

/// To what length a file is to be cut so that nothing follows its last whole record.
pub fn repair(file_len: u64, valid_len: u64) -> (r: Option<u64>)
    ensures
        r == (if file_len > valid_len {
            Some(valid_len)
        } else {
            None
        }),
{
    if file_len > valid_len {
        Some(valid_len)
    } else {
        None
    }
}

/// The line that is written for a record.
pub fn frame_record(json: String) -> (r: String)
    ensures
        r@ == json@ + "\n"@,
{
    json.concat("\n")
}

/// The entries among the records, in order.
pub open spec fn entries_of(records: Seq<SessionRecord>) -> Seq<SessionEntry>
    decreases records.len(),
{
    if records.len() == 0 {
        Seq::empty()
    } else {
        match records.last() {
            SessionRecord::Message(e) => entries_of(records.drop_last()).push(e),
            SessionRecord::LaneHead(_) => entries_of(records.drop_last()),
        }
    }
}

/// The entries among the records.
fn take_entries(records: Vec<SessionRecord>) -> (r: Vec<SessionEntry>)
    ensures
        r@ == entries_of(records@),
{
    let ghost all = records@;
    let mut out: Vec<SessionEntry> = Vec::new();
    let mut n: Ghost<int> = Ghost(0);
    for record in it: records
        invariant
            all == it.seq(),
            n@ == it.index(),
            0 <= n@ <= all.len(),
            out@ == entries_of(all.take(n@)),
    {
        proof {
            assert(all.take(n@ + 1).drop_last() =~= all.take(n@));
            assert(all.take(n@ + 1).last() == record);
            n@ = n@ + 1;
        }
        match record {
            SessionRecord::Message(e) => {
                out.push(e);
            },
            SessionRecord::LaneHead(_) => {},
        }
    }
    assert(all.take(all.len() as int) =~= all);
    out
}

/// The smallest number above all ids of `entries`.
pub open spec fn above_ids(entries: Seq<SessionEntry>) -> nat
    decreases entries.len(),
{
    if entries.len() == 0 {
        0
    } else {
        let below = above_ids(entries.drop_last());
        let id = entries.last().id as nat;
        if below > id {
            below
        } else {
            id + 1
        }
    }
}

/// The id after the largest one among the records, 0 where there is none.
fn next_after(records: &[SessionRecord]) -> (r: Result<u64, SessionError>)
    ensures
        match r {
            Ok(n) => n == above_ids(entries_of(records@)),
            Err(e) => e is IdExhausted && above_ids(entries_of(records@)) > u64::MAX,
        },
{
    let mut largest: Option<u64> = None;
    let mut i: usize = 0;
    while i < records.len()
        invariant
            i <= records@.len(),
            above_ids(entries_of(records@.take(i as int))) == (match largest {
                Some(m) => m as nat + 1,
                None => 0nat,
            }),
        decreases records@.len() - i,
    {
        proof {
            let after = records@.take(i + 1);
            assert(after.drop_last() =~= records@.take(i as int));
            if after.last() is Message {
                let e = after.last()->Message_0;
                assert(entries_of(after).drop_last() =~= entries_of(records@.take(i as int)));
                assert(entries_of(after).last() == e);
            }
        }
        match &records[i] {
            SessionRecord::Message(e) => {
                let larger = match largest {
                    Some(m) => e.id > m,
                    None => true,
                };
                if larger {
                    largest = Some(e.id);
                }
            },
            SessionRecord::LaneHead(_) => {},
        }
        i += 1;
    }
    assert(records@.take(records@.len() as int) =~= records@);
    match largest {
        None => Ok(0),
        Some(m) => if m == u64::MAX {
            Err(SessionError::IdExhausted)
        } else {
            Ok(m + 1)
        },
    }
}

/// Every id is below `above_ids`.
pub proof fn lemma_above_ids(entries: Seq<SessionEntry>, i: int)
    requires
        0 <= i < entries.len(),
    ensures
        entries[i].id < above_ids(entries),
    decreases entries.len(),
{
    if i < entries.len() - 1 {
        lemma_above_ids(entries.drop_last(), i);
    }
}

/// The storage of a session in a file: where it is, and the next id to hand out. The file itself
/// is read and written elsewhere; here stands what is decided from its records.
#[derive(Debug)]
pub struct JsonlSessionStorage {
    pub path: String,
    pub session_id: String,
    pub next_id: u64,
    /// The lock that keeps other processes out while a record is written, if there is one.
    pub file_lock: Option<FileLock>,
}

impl JsonlSessionStorage {
    /// Opens the storage of a file that holds `records`: ids go on after the largest one.
    pub fn open(path: String, session_id: String, records: &[SessionRecord]) -> (r: Result<
        Self,
        SessionError,
    >)
        ensures
            match r {
                Ok(s) => {
                    &&& s.path == path
                    &&& s.session_id == session_id
                    &&& s.next_id == above_ids(entries_of(records@))
                    &&& s.file_lock is None
                },
                Err(e) => e is IdExhausted && above_ids(entries_of(records@)) > u64::MAX,
            },
    {
        match next_after(records) {
            Ok(next_id) => Ok(JsonlSessionStorage { path, session_id, next_id, file_lock: None }),
            Err(e) => Err(e),
        }
    }

    /// Opens the storage of a file that is shared with other processes by way of `lock`.
    pub fn open_locked(
        path: String,
        session_id: String,
        records: &[SessionRecord],
        lock: FileLock,
    ) -> (r: Result<Self, SessionError>)
        ensures
            match r {
                Ok(s) => {
                    &&& s.path == path
                    &&& s.session_id == session_id
                    &&& s.next_id == above_ids(entries_of(records@))
                    &&& s.file_lock == Some(lock)
                },
                Err(e) => e is IdExhausted && above_ids(entries_of(records@)) > u64::MAX,
            },
    {
        match Self::open(path, session_id, records) {
            Ok(s) => Ok(
                JsonlSessionStorage {
                    path: s.path,
                    session_id: s.session_id,
                    next_id: s.next_id,
                    file_lock: Some(lock),
                },
            ),
            Err(e) => Err(e),
        }
    }

    /// Claims the next id. A claimed id is not handed out again, even if nothing comes to be
    /// written under it.
    pub fn claim_next_id(&mut self) -> (r: Result<NodeId, SessionError>)
        ensures
            final(self).path == old(self).path,
            final(self).session_id == old(self).session_id,
            final(self).file_lock == old(self).file_lock,
            match r {
                Ok(id) => {
                    &&& id == old(self).next_id
                    &&& old(self).next_id < u64::MAX
                    &&& final(self).next_id == old(self).next_id + 1
                },
                Err(e) => {
                    &&& e is IdExhausted
                    &&& old(self).next_id == u64::MAX
                    &&& final(self).next_id == old(self).next_id
                },
            },
    {
        if self.next_id == u64::MAX {
            return Err(SessionError::IdExhausted);
        }
        let id: u64 = self.next_id;
        self.next_id = id + 1;
        Ok(id)
    }

    /// Moves the next id behind all ids of `records`, which were read again under the lock. It
    /// never moves back.
    pub fn refresh_cursor(&mut self, records: &[SessionRecord]) -> (r: Result<(), SessionError>)
        ensures
            final(self).path == old(self).path,
            final(self).session_id == old(self).session_id,
            final(self).file_lock == old(self).file_lock,
            ({
                let floor = above_ids(entries_of(records@));
                match r {
                    Ok(_) => {
                        &&& floor <= u64::MAX
                        &&& final(self).next_id == (if floor > old(self).next_id {
                            floor
                        } else {
                            old(self).next_id as nat
                        })
                    },
                    Err(e) => {
                        &&& e is IdExhausted
                        &&& floor > u64::MAX
                        &&& final(self).next_id == old(self).next_id
                    },
                }
            }),
    {
        match next_after(records) {
            Ok(floor) => {
                if floor > self.next_id {
                    self.next_id = floor;
                }
                Ok(())
            },
            Err(e) => Err(e),
        }
    }

    /// The entry for a message below `parent_id`, under a newly claimed id. With a lock, `on_disk`
    /// holds what the file held once the lock was taken, and the id comes behind all of it.
    pub fn prepare_append(
        &mut self,
        on_disk: Option<Vec<SessionRecord>>,
        parent_id: Option<NodeId>,
        message: Message,
    ) -> (r: Result<SessionEntry, SessionError>)
        ensures
            final(self).path == old(self).path,
            final(self).session_id == old(self).session_id,
            final(self).file_lock == old(self).file_lock,
            ({
                let floor = match on_disk {
                    Some(records) => above_ids(entries_of(records@)),
                    None => 0nat,
                };
                let id = if floor > old(self).next_id {
                    floor
                } else {
                    old(self).next_id as nat
                };
                match r {
                    Ok(e) => {
                        &&& e.id == id
                        &&& e.parent_id == parent_id
                        &&& e.message == message
                        &&& final(self).next_id == id + 1
                    },
                    Err(e) => {
                        &&& e is IdExhausted
                        &&& id >= u64::MAX
                        &&& final(self).next_id == (if id > u64::MAX {
                            old(self).next_id as nat
                        } else {
                            id
                        })
                    },
                }
            }),
    {
        match on_disk {
            Some(records) => match self.refresh_cursor(records.as_slice()) {
                Ok(_) => {},
                Err(e) => {
                    return Err(e);
                },
            },
            None => {},
        }
        match self.claim_next_id() {
            Ok(id) => Ok(SessionEntry { id, parent_id, message }),
            Err(e) => Err(e),
        }
    }

    /// Rebuilds the tree from the records of the file; the next id moves behind all of them.
    pub fn load(&mut self, records: Vec<SessionRecord>) -> (r: Result<SessionTree, SessionError>)
        ensures
            final(self).path == old(self).path,
            final(self).session_id == old(self).session_id,
            final(self).file_lock == old(self).file_lock,
            ({
                let entries = entries_of(records@);
                let above = above_ids(entries);
                if !session::forms_tree(entries) {
                    &&& r is Err
                    &&& session::reduce_result(entries, old(self).session_id@, r)
                    &&& final(self).next_id == old(self).next_id
                } else if above > u64::MAX {
                    &&& r matches Err(e) && e is IdExhausted
                    &&& final(self).next_id == old(self).next_id
                } else {
                    &&& r is Ok
                    &&& session::reduce_result(entries, old(self).session_id@, r)
                    &&& final(self).next_id == (if above > old(self).next_id {
                        above
                    } else {
                        old(self).next_id as nat
                    })
                }
            }),
    {
        let above = next_after(records.as_slice());
        let entries = take_entries(records);
        let tree = match session::reduce_for(entries, self.session_id.as_str()) {
            Ok(tree) => tree,
            Err(e) => {
                proof {
                    lemma_failed_is_no_tree(entries@, self.session_id@, e);
                }
                return Err(e);
            },
        };
        match above {
            Ok(floor) => {
                if floor > self.next_id {
                    self.next_id = floor;
                }
                Ok(tree)
            },
            Err(e) => Err(e),
        }
    }
}

proof fn lemma_failed_is_no_tree(
    entries: Seq<SessionEntry>,
    session_id: Seq<char>,
    e: SessionError,
)
    requires
        session::reduce_result(entries, session_id, Err(e)),
    ensures
        !session::forms_tree(entries),
{
    match e {
        SessionError::DuplicateNode(id) => {
            let i = choose|i: int| #[trigger]
                session::first_bad(entries, i) && session::duplicate_at(entries, i) && id
                    == entries[i].id;
            assert(session::bad_at(entries, i));
        },
        SessionError::MultipleRoots => {
            let i = choose|i: int| #[trigger]
                session::first_bad(entries, i) && !session::duplicate_at(entries, i);
            assert(session::bad_at(entries, i));
        },
        SessionError::ParentNotFound(p) => {
            let i = choose|i: int| #[trigger]
                session::first_orphan(entries, i) && entries[i].parent_id == Some(p);
            assert(session::orphan_at(entries, i));
        },
        _ => {},
    }
}

/// A message that is added below a node of the tree, or as the first one, under an id that was not
/// used yet, makes up a tree with the others. This is so for every tree, and for every id that the
/// storage hands out.
pub proof fn law_appended_message_forms_tree(entries: Seq<SessionEntry>, e: SessionEntry)
    requires
        session::forms_tree(entries),
        e.id >= above_ids(entries),
        match e.parent_id {
            Some(p) => session::has_id(entries, p),
            None => entries.len() == 0,
        },
    ensures
        session::forms_tree(entries.push(e)),
{
    let all = entries.push(e);
    let n = entries.len() as int;
    assert(all[n] == e);
    assert forall|i: int| 0 <= i < n implies (#[trigger] entries[i]).id != e.id by {
        lemma_above_ids(entries, i);
    }
    assert(session::scans(all)) by {
        assert forall|i: int| 0 <= i < all.len() implies !#[trigger] session::bad_at(all, i) by {
            if i < n {
                assert(!session::bad_at(entries, i));
                if session::duplicate_at(all, i) {
                    let j = choose|j: int| 0 <= j < i && (#[trigger] all[j]).id == all[i].id;
                    assert(entries[j].id == entries[i].id);
                }
                if session::second_root_at(all, i) {
                    let j = choose|j: int| 0 <= j < i && (#[trigger] all[j]).parent_id is None;
                    assert(entries[j].parent_id is None);
                }
            } else {
                if session::duplicate_at(all, i) {
                    let j = choose|j: int| 0 <= j < i && (#[trigger] all[j]).id == all[i].id;
                    assert(entries[j].id == e.id);
                }
            }
        }
    }
    assert forall|id: NodeId| session::has_id(entries, id) implies session::has_id(all, id) by {
        let j = choose|j: int| 0 <= j < entries.len() && (#[trigger] entries[j]).id == id;
        assert(all[j].id == id);
    }
    assert(session::parents_present(all)) by {
        assert forall|i: int| 0 <= i < all.len() implies !#[trigger] session::orphan_at(all, i) by {
            if i < n {
                assert(!session::orphan_at(entries, i));
                assert(all[i] == entries[i]);
            }
        }
    }
    let old_up = session::parents(entries);
    let up = session::parents(all);
    assert(all.drop_last() =~= entries);
    assert(up == old_up.insert(e.id, e.parent_id));
    session::lemma_parents_at(entries);
    session::lemma_parents_at(all);
    assert(!old_up.contains_key(e.id)) by {
        if session::has_id(entries, e.id) {
            let j = choose|j: int| 0 <= j < entries.len() && (#[trigger] entries[j]).id == e.id;
            lemma_above_ids(entries, j);
        }
    }
    assert(session::acyclic(up)) by {
        assert forall|id: NodeId| #[trigger] up.contains_key(id) implies session::rooted(
            up,
            id,
        ) by {
            if id == e.id {
                match e.parent_id {
                    None => {
                        assert(session::ends_within(up, id, 0));
                    },
                    Some(p) => {
                        assert(old_up.contains_key(p));
                        let k = choose|k: nat| session::ends_within(old_up, p, k);
                        lemma_ends_in_larger(old_up, up, p, k);
                        assert(session::ends_within(up, id, k + 1));
                    },
                }
            } else {
                assert(old_up.contains_key(id));
                let k = choose|k: nat| session::ends_within(old_up, id, k);
                lemma_ends_in_larger(old_up, up, id, k);
            }
        }
    }
}

/// What is written is read back: a message that was added is a leaf of the tree, with its text and
/// below its parent.
pub proof fn law_appended_message_is_loaded(
    entries: Seq<SessionEntry>,
    e: SessionEntry,
    tree: SessionTree,
)
    requires
        session::forms_tree(entries),
        e.id >= above_ids(entries),
        match e.parent_id {
            Some(p) => session::has_id(entries, p),
            None => entries.len() == 0,
        },
        tree.is_tree_of(entries.push(e)),
    ensures
        session::forms_tree(entries.push(e)),
        tree.is_leaf(e.id),
        tree.nodes@[e.id].message == e.message,
        tree.nodes@[e.id].parent_id == e.parent_id,
{
    law_appended_message_forms_tree(entries, e);
    let all = entries.push(e);
    let n = entries.len() as int;
    assert(all[n] == e);
    let old_up = session::parents(entries);
    let up = session::parents(all);
    assert(all.drop_last() =~= entries);
    session::lemma_parents_at(entries);
    session::lemma_parents_at(all);
    if session::has_id(entries, e.id) {
        let j = choose|j: int| 0 <= j < entries.len() && (#[trigger] entries[j]).id == e.id;
        lemma_above_ids(entries, j);
    }
    let node = tree.nodes@[e.id];
    assert(tree.nodes@[all[n].id].message == e.message);
    assert(session::has_id(all, e.id));
    assert(session::children_are(up, e.id, node.children@));
    if node.children@.len() > 0 {
        let c = node.children@[0];
        assert(node.children@.contains(c));
        assert(up[c] == Some(e.id));
        if c == e.id {
            assert(e.parent_id == Some(e.id));
            assert(session::has_id(entries, e.id));
        } else {
            assert(old_up.contains_key(c));
            let j = choose|j: int| 0 <= j < entries.len() && (#[trigger] entries[j]).id == c;
            assert(old_up[entries[j].id] == entries[j].parent_id);
            assert(!session::orphan_at(entries, j));
        }
    }
}

proof fn lemma_ends_in_larger(
    small: Map<NodeId, Option<NodeId>>,
    large: Map<NodeId, Option<NodeId>>,
    id: NodeId,
    n: nat,
)
    requires
        session::ends_within(small, id, n),
        forall|k: NodeId| #[trigger]
            small.contains_key(k) ==> large.contains_key(k) && large[k] == small[k],
    ensures
        session::ends_within(large, id, n),
    decreases n,
{
    if small[id] is Some {
        lemma_ends_in_larger(small, large, small[id]->0, (n - 1) as nat);
    }
}

/// Ids are never handed out twice: the id of an entry is above all ids in the file and above all
/// that were claimed before, and the next one is above it.
pub proof fn law_claimed_ids_are_fresh(
    entries: Seq<SessionEntry>,
    next_id: u64,
    claimed: NodeId,
    i: int,
)
    requires
        claimed as nat == (if above_ids(entries) > next_id {
            above_ids(entries)
        } else {
            next_id as nat
        }),
        0 <= i < entries.len(),
    ensures
        entries[i].id < claimed,
        claimed >= next_id,
        forall|e: SessionEntry|
            e.id == claimed ==> above_ids(#[trigger] entries.push(e)) == claimed + 1,
{
    lemma_above_ids(entries, i);
    assert forall|e: SessionEntry| e.id == claimed implies above_ids(#[trigger] entries.push(e))
        == claimed + 1 by {
        assert(entries.push(e).drop_last() =~= entries);
    }
}

/// Where the head of the lane `lane` is according to `records`: what was written last. `None`
/// where nothing was written for the lane.
pub open spec fn head_of(records: Seq<SessionRecord>, lane: Seq<char>) -> Option<Option<NodeId>>
    decreases records.len(),
{
    if records.len() == 0 {
        None
    } else {
        match records.last() {
            SessionRecord::LaneHead(h) if h.lane_id@ == lane => Some(h.head),
            _ => head_of(records.drop_last(), lane),
        }
    }
}

/// The heads of the lanes: no lane occurs twice.
#[derive(Debug, PartialEq)]
pub struct LaneHeads {
    pub heads: Vec<LaneHeadRecord>,
}

impl LaneHeads {
    /// No lane occurs twice.
    pub open spec fn wf(self) -> bool {
        forall|i: int, j: int|
            0 <= i < j < self.heads@.len() ==> (#[trigger] self.heads@[i]).lane_id@ != (
            #[trigger] self.heads@[j]).lane_id@
    }

    /// Whether the head of a lane stands at `i`: the first that is there.
    pub open spec fn stands_at(self, lane: Seq<char>, i: int) -> bool {
        &&& 0 <= i < self.heads@.len()
        &&& self.heads@[i].lane_id@ == lane
        &&& forall|j: int| 0 <= j < i ==> (#[trigger] self.heads@[j]).lane_id@ != lane
    }

    /// The head of a lane.
    pub open spec fn lookup(self, lane: Seq<char>) -> Option<Option<NodeId>> {
        if exists|i: int| #[trigger] self.stands_at(lane, i) {
            let i = choose|i: int| #[trigger] self.stands_at(lane, i);
            Some(self.heads@[i].head)
        } else {
            None
        }
    }

    proof fn lemma_stands_at(self, lane: Seq<char>, i: int)
        requires
            self.stands_at(lane, i),
        ensures
            self.lookup(lane) == Some(self.heads@[i].head),
    {
        let k = choose|k: int| #[trigger] self.stands_at(lane, k);
        assert(self.heads@[k].lane_id@ == self.heads@[i].lane_id@);
    }

    proof fn lemma_lookup(self, i: int)
        requires
            self.wf(),
            0 <= i < self.heads@.len(),
        ensures
            self.lookup(self.heads@[i].lane_id@) == Some(self.heads@[i].head),
    {
        self.lemma_stands_at(self.heads@[i].lane_id@, i);
    }

    /// No heads.
    pub fn new() -> (r: Self)
        ensures
            r.wf(),
            r.heads@.len() == 0,
            forall|lane: Seq<char>| #[trigger] r.lookup(lane) is None,
    {
        LaneHeads { heads: Vec::new() }
    }

    /// The head of a lane; `None` where nothing is known of the lane.
    pub fn get(&self, lane: &str) -> (r: Option<Option<NodeId>>)
        ensures
            r == self.lookup(lane@),
    {
        let mut i: usize = 0;
        while i < self.heads.len()
            invariant
                i <= self.heads@.len(),
                forall|j: int| 0 <= j < i ==> (#[trigger] self.heads@[j]).lane_id@ != lane@,
            decreases self.heads@.len() - i,
        {
            if text::str_eq(self.heads[i].lane_id.as_str(), lane) {
                proof {
                    self.lemma_stands_at(lane@, i as int);
                }
                return Some(self.heads[i].head);
            }
            i += 1;
        }
        None
    }

    /// Notes the head of a lane; what was known of it before is replaced.
    pub fn put(&mut self, record: LaneHeadRecord)
        requires
            old(self).wf(),
        ensures
            final(self).wf(),
            forall|lane: Seq<char>| #[trigger]
                final(self).lookup(lane) == (if lane == record.lane_id@ {
                    Some(record.head)
                } else {
                    old(self).lookup(lane)
                }),
    {
        let ghost before = *self;
        let ghost lane = record.lane_id@;
        let mut i: usize = 0;
        while i < self.heads.len()
            invariant
                i <= self.heads@.len(),
                *self == before,
                before == *old(self),
                self.wf(),
                lane == record.lane_id@,
                forall|j: int| 0 <= j < i ==> (#[trigger] self.heads@[j]).lane_id@ != lane,
            decreases self.heads@.len() - i,
        {
            if text::str_eq(self.heads[i].lane_id.as_str(), record.lane_id.as_str()) {
                let ghost at = i as int;
                self.heads.set(i, record);
                proof {
                    assert forall|a: int, b: int| 0 <= a < b < self.heads@.len() implies (
                    #[trigger] self.heads@[a]).lane_id@ != (#[trigger] self.heads@[b]).lane_id@ by {
                        assert(before.heads@[a].lane_id@ != before.heads@[b].lane_id@);
                    }
                    self.lemma_put(before, record, at);
                }
                return ;
            }
            i += 1;
        }
        let ghost at = self.heads@.len() as int;
        self.heads.push(record);
        proof {
            assert forall|a: int, b: int| 0 <= a < b < self.heads@.len() implies (
            #[trigger] self.heads@[a]).lane_id@ != (#[trigger] self.heads@[b]).lane_id@ by {
                if b < at {
                    assert(before.heads@[a].lane_id@ != before.heads@[b].lane_id@);
                } else {
                    assert(before.heads@[a].lane_id@ != lane);
                }
            }
            self.lemma_put(before, record, at);
        }
    }

    proof fn lemma_put(self, before: LaneHeads, record: LaneHeadRecord, at: int)
        requires
            before.wf(),
            self.wf(),
            0 <= at < self.heads@.len(),
            self.heads@[at] == record,
            before.heads@.len() <= self.heads@.len() <= before.heads@.len() + 1,
            self.heads@.len() > before.heads@.len() ==> at == before.heads@.len(),
            forall|i: int|
                0 <= i < before.heads@.len() && i != at ==> #[trigger] self.heads@[i]
                    == before.heads@[i],
            at < before.heads@.len() ==> before.heads@[at].lane_id@ == record.lane_id@,
        ensures
            forall|lane: Seq<char>| #[trigger]
                self.lookup(lane) == (if lane == record.lane_id@ {
                    Some(record.head)
                } else {
                    before.lookup(lane)
                }),
    {
        assert forall|lane: Seq<char>| #[trigger]
            self.lookup(lane) == (if lane == record.lane_id@ {
                Some(record.head)
            } else {
                before.lookup(lane)
            }) by {
            if lane == record.lane_id@ {
                self.lemma_lookup(at);
            } else {
                if exists|i: int| #[trigger] before.stands_at(lane, i) {
                    let i = choose|i: int| #[trigger] before.stands_at(lane, i);
                    assert(i != at);
                    assert(self.heads@[i] == before.heads@[i]);
                    before.lemma_lookup(i);
                    self.lemma_lookup(i);
                } else if exists|i: int| #[trigger] self.stands_at(lane, i) {
                    let i = choose|i: int| #[trigger] self.stands_at(lane, i);
                    assert(i != at);
                    assert(before.stands_at(lane, i));
                }
            }
        }
    }
}

/// The heads of all lanes: for each what was written last.
pub fn load_lane_heads(records: Vec<SessionRecord>) -> (r: LaneHeads)
    ensures
        r.wf(),
        forall|lane: Seq<char>| #[trigger] r.lookup(lane) == head_of(records@, lane),
{
    let ghost all = records@;
    let mut heads = LaneHeads::new();
    let mut n: Ghost<int> = Ghost(0);
    for record in it: records
        invariant
            all == it.seq(),
            n@ == it.index(),
            0 <= n@ <= all.len(),
            heads.wf(),
            forall|lane: Seq<char>| #[trigger]
                heads.lookup(lane) == head_of(all.take(n@), lane),
    {
        proof {
            assert(all.take(n@ + 1).drop_last() =~= all.take(n@));
            assert(all.take(n@ + 1).last() == record);
            n@ = n@ + 1;
        }
        match record {
            SessionRecord::LaneHead(h) => {
                heads.put(h);
            },
            SessionRecord::Message(_) => {},
        }
    }
    assert(all.take(all.len() as int) =~= all);
    heads
}

/// A head that is written is the one that is read, and the heads of other lanes stay. Messages do
/// not move heads.
pub proof fn law_last_head_wins(records: Seq<SessionRecord>, record: SessionRecord, lane: Seq<char>)
    ensures
        head_of(records.push(record), lane) == (match record {
            SessionRecord::LaneHead(h) if h.lane_id@ == lane => Some(h.head),
            _ => head_of(records, lane),
        }),
{
    assert(records.push(record).drop_last() =~= records);
}

/// The entries of a log are its messages, all of them, in their order.
pub proof fn law_every_message_is_an_entry(records: Seq<SessionRecord>)
    ensures
        entries_of(records).map_values(|e: SessionEntry| SessionRecord::Message(e))
            == records.filter(|r: SessionRecord| r is Message),
    decreases records.len(),
{
    reveal(Seq::filter);
    let f = |e: SessionEntry| SessionRecord::Message(e);
    if records.len() > 0 {
        let init = records.drop_last();
        law_every_message_is_an_entry(init);
        if let SessionRecord::Message(e) = records.last() {
            assert(entries_of(records).map_values(f) =~= entries_of(init).map_values(f).push(
                SessionRecord::Message(e),
            ));
        }
    } else {
        assert(entries_of(records).map_values(f) =~= records);
    }
}

/// Ids go on right after the largest one: every id is smaller, and the one before is in use, unless
/// there is none at all.
pub proof fn law_ids_go_on_after_the_largest(entries: Seq<SessionEntry>)
    ensures
        forall|i: int| 0 <= i < entries.len() ==> (#[trigger] entries[i]).id < above_ids(entries),
        entries.len() == 0 ==> above_ids(entries) == 0,
        entries.len() > 0 ==> exists|i: int|
            0 <= i < entries.len() && (#[trigger] entries[i]).id + 1 == above_ids(entries),
    decreases entries.len(),
{
    assert forall|i: int| 0 <= i < entries.len() implies (#[trigger] entries[i]).id < above_ids(
        entries,
    ) by {
        lemma_above_ids(entries, i);
    }
    if entries.len() > 0 {
        let init = entries.drop_last();
        law_ids_go_on_after_the_largest(init);
        if above_ids(init) > entries.last().id as nat {
            let i = choose|i: int|
                0 <= i < init.len() && (#[trigger] init[i]).id + 1 == above_ids(init);
            assert(entries[i] == init[i]);
        } else {
            assert(entries[entries.len() - 1] == entries.last());
        }
    }
}

/// Reading a log loses nothing but what follows a line that is no record: where every line is a
/// record all of them are read, and what is read are the lines up to the first that is none.
pub proof fn law_reading_stops_at_the_first_bad_line(
    parsed: Seq<Option<SessionRecord>>,
    n: int,
    bad: int,
)
    requires
        leading(parsed, n),
    ensures
        (forall|i: int| 0 <= i < parsed.len() ==> (#[trigger] parsed[i]) is Some) ==> n
            == parsed.len(),
        0 <= bad < parsed.len() && parsed[bad] is None && (forall|i: int|
            0 <= i < bad ==> (#[trigger] parsed[i]) is Some) ==> n == bad,
{
}

/// The head of a lane is what the last record for it says: whatever was written for other lanes and
/// however many messages came behind it. A lane without a record has none.
pub proof fn law_head_is_the_last_one_written(
    records: Seq<SessionRecord>,
    lane: Seq<char>,
    at: int,
)
    ensures
        0 <= at < records.len() && (records[at] matches SessionRecord::LaneHead(h)
            && h.lane_id@ == lane) && (forall|i: int|
            at < i < records.len() ==> ((#[trigger] records[i]) matches SessionRecord::LaneHead(h)
                ==> h.lane_id@ != lane)) ==> head_of(records, lane) == Some(
            records[at]->LaneHead_0.head,
        ),
        (forall|i: int|
            0 <= i < records.len() ==> ((#[trigger] records[i]) matches SessionRecord::LaneHead(h)
                ==> h.lane_id@ != lane)) ==> head_of(records, lane) is None,
    decreases records.len(),
{
    if records.len() > 0 {
        let init = records.drop_last();
        assert(records[records.len() - 1] == records.last());
        law_head_is_the_last_one_written(init, lane, at);
        assert forall|i: int| 0 <= i < init.len() implies #[trigger] init[i] == records[i] by {}
    }
}

/// A log that was written one message after the other is loaded: replaying it succeeds.
pub proof fn law_orderly_log_is_loaded(
    entries: Seq<SessionEntry>,
    session_id: Seq<char>,
    r: Result<SessionTree, SessionError>,
)
    requires
        forall|i: int, j: int|
            0 <= i < j < entries.len() ==> (#[trigger] entries[i]).id != (#[trigger] entries[j]).id,
        entries.len() > 0 ==> entries[0].parent_id is None,
        forall|i: int| 0 < i < entries.len() ==> session::below_an_earlier(entries, i),
        session::reduce_result(entries, session_id, r),
    ensures
        r is Ok,
        r matches Ok(tree) ==> tree.session_id@ == session_id && forall|i: int|
            0 <= i < entries.len() ==> tree.nodes@.contains_key((#[trigger] entries[i]).id)
                && tree.nodes@[entries[i].id].message == entries[i].message
                && tree.nodes@[entries[i].id].parent_id == entries[i].parent_id,
{
    session::law_orderly_entries_form_a_tree(entries);
    match r {
        Err(e) => {
            lemma_failed_is_no_tree(entries, session_id, e);
        },
        Ok(tree) => {
            session::law_tree_holds_every_entry(tree, entries);
        },
    }
}

/// A log that is no tree is not loaded, and it is told what is wrong with it: an id that comes
/// twice, a second root, or a parent that is not there.
pub proof fn law_broken_log_is_refused(
    entries: Seq<SessionEntry>,
    session_id: Seq<char>,
    r: Result<SessionTree, SessionError>,
    i: int,
    j: int,
)
    requires
        session::reduce_result(entries, session_id, r),
        0 <= i < j < entries.len(),
    ensures
        entries[i].id == entries[j].id ==> r is Err,
        entries[i].parent_id is None && entries[j].parent_id is None ==> r is Err,
        (entries[j].parent_id matches Some(p) && forall|k: int|
            0 <= k < entries.len() ==> (#[trigger] entries[k]).id != p) ==> r is Err,
        r matches Err(SessionError::DuplicateNode(id)) ==> exists|a: int, b: int|
            0 <= a < b < entries.len() && (#[trigger] entries[a]).id == id && (
            #[trigger] entries[b]).id == id,
        r matches Err(SessionError::MultipleRoots) ==> exists|a: int, b: int|
            0 <= a < b < entries.len() && (#[trigger] entries[a]).parent_id is None && (
            #[trigger] entries[b]).parent_id is None,
        r matches Err(SessionError::ParentNotFound(p)) ==> forall|k: int|
            0 <= k < entries.len() ==> (#[trigger] entries[k]).id != p,
{
    if r is Ok {
        session::law_trees_are_sound(entries);
    }
    match r {
        Err(SessionError::DuplicateNode(id)) => {
            let b = choose|b: int| #[trigger]
                session::first_bad(entries, b) && session::duplicate_at(entries, b) && id
                    == entries[b].id;
            let a = choose|a: int| 0 <= a < b && (#[trigger] entries[a]).id == entries[b].id;
            assert(entries[a].id == id && entries[b].id == id);
        },
        Err(SessionError::MultipleRoots) => {
            let b = choose|b: int| #[trigger]
                session::first_bad(entries, b) && !session::duplicate_at(entries, b);
            assert(session::second_root_at(entries, b));
            let a = choose|a: int| 0 <= a < b && (#[trigger] entries[a]).parent_id is None;
            assert(entries[a].parent_id is None && entries[b].parent_id is None);
        },
        Err(SessionError::ParentNotFound(p)) => {
            let b = choose|b: int| #[trigger]
                session::first_orphan(entries, b) && entries[b].parent_id == Some(p);
            assert(!session::has_id(entries, p));
        },
        _ => {},
    }
}

/// The head that is found for a lane is the one that stands beside its name; for a lane that is not
/// there none is found.
pub proof fn law_heads_are_found_by_lane(heads: LaneHeads, lane: Seq<char>, i: int)
    requires
        heads.wf(),
    ensures
        0 <= i < heads.heads@.len() && heads.heads@[i].lane_id@ == lane ==> heads.lookup(lane)
            == Some(heads.heads@[i].head),
        (forall|j: int| 0 <= j < heads.heads@.len() ==> (#[trigger] heads.heads@[j]).lane_id@
            != lane) ==> heads.lookup(lane) is None,
{
    if 0 <= i < heads.heads@.len() && heads.heads@[i].lane_id@ == lane {
        heads.lemma_lookup(i);
    }
}

/// An id is handed out once: it comes behind all that were handed out before and behind all that are on
/// record, and the next id comes behind it. The next id never moves back.
pub proof fn law_every_id_is_handed_out_once()
    ensures
        forall|s: &mut JsonlSessionStorage, r: Result<NodeId, SessionError>| #[trigger]
            call_ensures(JsonlSessionStorage::claim_next_id, (s,), r) ==> {
                &&& s.next_id <= final(s).next_id
                &&& r matches Ok(id) ==> s.next_id <= id < final(s).next_id
                &&& r is Ok <==> s.next_id < u64::MAX
            },
        forall|
            s: &mut JsonlSessionStorage,
            on_disk: Option<Vec<SessionRecord>>,
            parent_id: Option<NodeId>,
            message: Message,
            r: Result<SessionEntry, SessionError>,
        | #[trigger]
            call_ensures(
                JsonlSessionStorage::prepare_append,
                (s, on_disk, parent_id, message),
                r,
            ) ==> {
                &&& s.next_id <= final(s).next_id
                &&& r matches Ok(e) ==> s.next_id <= e.id < final(s).next_id
                &&& r matches Ok(e) ==> e.parent_id == parent_id && e.message == message
                &&& r is Ok && on_disk is Some ==> later_than(on_disk->0@, (r->Ok_0).id)
            },
        forall|s: &mut JsonlSessionStorage, records: &[SessionRecord], r: Result<(), SessionError>|
            #[trigger]
            call_ensures(JsonlSessionStorage::refresh_cursor, (s, records), r) ==> {
                &&& s.next_id <= final(s).next_id
                &&& r is Ok ==> later_than(records@, final(s).next_id)
            },
        forall|
            s: &mut JsonlSessionStorage,
            records: Vec<SessionRecord>,
            r: Result<SessionTree, SessionError>,
        | #[trigger]
            call_ensures(JsonlSessionStorage::load, (s, records), r) ==> {
                &&& s.next_id <= final(s).next_id
                &&& r is Ok ==> later_than(records@, final(s).next_id)
            },
        forall|
            path: String,
            session_id: String,
            records: &[SessionRecord],
            r: Result<JsonlSessionStorage, SessionError>,
        | #[trigger]
            call_ensures(JsonlSessionStorage::open, (path, session_id, records), r) ==> (
            r matches Ok(s) ==> later_than(records@, s.next_id)),
{
    assert forall|records: Seq<SessionRecord>, id: NodeId|
        above_ids(entries_of(records)) <= id implies #[trigger] later_than(records, id) by {
        lemma_later_than(records, id);
    }
}

/// Whether `id` comes behind the ids of all messages in `records`.
pub open spec fn later_than(records: Seq<SessionRecord>, id: NodeId) -> bool {
    forall|i: int|
        0 <= i < records.len() && (#[trigger] records[i]) is Message ==> records[i]->Message_0.id
            < id
}

proof fn lemma_later_than(records: Seq<SessionRecord>, id: NodeId)
    requires
        above_ids(entries_of(records)) <= id,
    ensures
        later_than(records, id),
    decreases records.len(),
{
    if records.len() > 0 {
        let init = records.drop_last();
        let entries = entries_of(records);
        if records.last() is Message {
            assert(entries.drop_last() =~= entries_of(init));
        }
        lemma_later_than(init, id);
        assert forall|i: int| 0 <= i < records.len() && (#[trigger] records[i]) is Message implies
            records[i]->Message_0.id < id by {
            if i < init.len() {
                assert(init[i] == records[i]);
            } else {
                assert(entries.last().id < above_ids(entries)) by {
                    lemma_above_ids(entries, entries.len() - 1);
                }
            }
        }
    }
}

/// The lines of a log are read one for one, up to the first that is no record.
pub proof fn law_records_are_read_as_they_stand(
    parsed: Vec<Option<SessionRecord>>,
    r: Vec<SessionRecord>,
)
    requires
        call_ensures(read_records, (parsed,), r),
    ensures
        r@.map_values(|x: SessionRecord| Some(x)).is_prefix_of(parsed@),
        r@.len() == parsed@.len() || parsed@[r@.len() as int] is None,
{
    let shown = r@.map_values(|x: SessionRecord| Some(x));
    assert(shown =~= parsed@.subrange(0, shown.len() as int)) by {
        assert forall|i: int| 0 <= i < r@.len() implies parsed@[i] == Some(#[trigger] r@[i]) by {}
    }
}

/// A repaired file is as long as what was read as records, unless it is shorter already: a file is
/// never made longer, and no record is cut.
pub proof fn law_repair_cuts_what_was_not_read(file_len: u64, valid_len: u64, r: Option<u64>)
    requires
        call_ensures(repair, (file_len, valid_len), r),
    ensures
        r matches Some(n) ==> n < file_len && n == valid_len,
        r is None <==> file_len <= valid_len,
{
}

/// A record is written as a line of its own.
pub proof fn law_record_is_a_line(json: String, r: String)
    requires
        call_ensures(frame_record, (json,), r),
    ensures
        r@.drop_last() == json@,
        r@.last() == '\n',
{
    reveal_strlit("\n");
    assert(r@.drop_last() =~= json@);
}

/// What is behind the lines that were read as records is left from a crash; a file whose next line is
/// whole but is no text is an error, and nothing else that is not read is.
pub proof fn law_reading_may_stop_at_half_a_line(
    bytes: &[u8],
    spans: &[LineSpan],
    count: usize,
    r: Result<(), SessionError>,
    len: u64,
)
    requires
        are_lines(bytes@, spans@, bytes@.len() as int),
        count <= spans@.len(),
        call_ensures(check_stop, (bytes, spans, count), r),
        call_ensures(valid_len, (spans, count), len),
    ensures
        count == spans@.len() ==> r is Ok,
        count < spans@.len() && spans@[count as int].end == bytes@.len() ==> r is Ok,
        count < spans@.len() && spans@[count as int].end < bytes@.len() ==> (r is Ok <==> valid_utf8(
            bytes@.subrange(
                spans@[count as int].start as int,
                spans@[count as int].end as int,
            ),
        )),
        count == 0 ==> len == 0,
        count < spans@.len() ==> len == spans@[count as int].start,
        count == spans@.len() && count > 0 ==> len == bytes@.len(),
{
    if 0 < count < spans@.len() {
        assert(is_line(bytes@, spans@[count as int], spans@[count - 1].next as int));
    }
    if count == 0 && spans@.len() > 0 {
        assert(spans@[0].start == 0);
    }
}

} // verus!
