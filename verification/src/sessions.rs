//! Splitting a raw dump of the rocket's flash log into flight sessions.
//!
//! The dump is scanned record by record from offset 0. Each record
//! either decodes (and has an uptime `t_ms`) or does not. A run of
//! decoded records is one session, and a run ends at a record that does
//! not decode, or where `t_ms` goes backward: uptime only decreases at a
//! boundary between two power cycles, and a new arm cycle can follow the
//! previous one with no blank record in between. After a record that
//! does not decode, scanning resumes at the next sector boundary strictly
//! after the current offset, since arm cycles only start on sector
//! boundaries.
//!
//! Sessions are given as half-open ranges `[start, end)` of the sequence
//! of decoded records, in scan order.
use vstd::prelude::*;

verus! {

/// The scan after some records: the finished sessions, where the current
/// one starts, how many records decoded, and the uptime of the last
/// record of the current session (if it has any).
pub struct ScanModel {
    pub sessions: Seq<(int, int)>,
    pub start: int,
    pub count: int,
    pub last_t: Option<u32>,
}

/// The scan before any record.
pub open spec fn scan_init() -> ScanModel {
    ScanModel { sessions: Seq::empty(), start: 0, count: 0, last_t: None }
}

/// The scan after one more record, which decoded with uptime `t` or did
/// not decode (`None`).
pub open spec fn scan_step(s: ScanModel, outcome: Option<u32>) -> ScanModel {
    match outcome {
        Some(t) => {
            let split = s.last_t matches Some(l) && t < l;
            ScanModel {
                sessions: if split {
                    s.sessions.push((s.start, s.count))
                } else {
                    s.sessions
                },
                start: if split {
                    s.count
                } else {
                    s.start
                },
                count: s.count + 1,
                last_t: Some(t),
            }
        },
        None => ScanModel {
            sessions: if s.count > s.start {
                s.sessions.push((s.start, s.count))
            } else {
                s.sessions
            },
            start: s.count,
            count: s.count,
            last_t: None,
        },
    }
}

/// The scan after the records whose decode outcomes are `outcomes`.
pub open spec fn scan(outcomes: Seq<Option<u32>>) -> ScanModel
    decreases outcomes.len(),
{
    if outcomes.len() == 0 {
        scan_init()
    } else {
        scan_step(scan(outcomes.drop_last()), outcomes.last())
    }
}

/// All sessions once the scan is over: the current one is closed too.
pub open spec fn sessions_of(outcomes: Seq<Option<u32>>) -> Seq<(int, int)> {
    let s = scan(outcomes);
    if s.count > s.start {
        s.sessions.push((s.start, s.count))
    } else {
        s.sessions
    }
}

/// The uptimes of the records that decoded, in scan order.
pub open spec fn decoded_times(outcomes: Seq<Option<u32>>) -> Seq<u32>
    decreases outcomes.len(),
{
    if outcomes.len() == 0 {
        Seq::empty()
    } else {
        match outcomes.last() {
            Some(t) => decoded_times(outcomes.drop_last()).push(t),
            None => decoded_times(outcomes.drop_last()),
        }
    }
}

/// Sessions that are non-empty, follow each other with no gap, and
/// cover `[0, end)`.
pub open spec fn tiles(sessions: Seq<(int, int)>, end: int) -> bool {
    &&& forall|i: int| 0 <= i < sessions.len() ==> #[trigger] sessions[i].0 < sessions[i].1
    &&& forall|i: int| 0 <= i < sessions.len() - 1 ==> #[trigger] sessions[i].1 == sessions[i + 1].0
    &&& sessions.len() == 0 ==> end == 0
    &&& sessions.len() > 0 ==> sessions[0].0 == 0 && sessions.last().1 == end
}

/// Uptime never goes backward inside `[a, b)`.
pub open spec fn non_decreasing(ts: Seq<u32>, a: int, b: int) -> bool {
    forall|i: int| a <= i && i + 1 < b ==> #[trigger] ts[i] <= ts[i + 1]
}

/// What the scan keeps true.
pub open spec fn scan_ok(s: ScanModel, ts: Seq<u32>) -> bool {
    &&& s.count == ts.len()
    &&& 0 <= s.start <= s.count
    &&& tiles(s.sessions, s.start)
    &&& forall|i: int| 0 <= i < s.sessions.len() ==> non_decreasing(ts, #[trigger] s.sessions[i].0, s.sessions[i].1)
    &&& non_decreasing(ts, s.start, s.count)
    &&& s.last_t == (if s.count > s.start {
        Some(ts[s.count - 1])
    } else {
        None
    })
}

proof fn lemma_nd_extend(ts: Seq<u32>, t: u32, a: int, b: int)
    requires
        non_decreasing(ts, a, b),
        0 <= a,
        b <= ts.len(),
    ensures
        non_decreasing(ts.push(t), a, b),
{
    assert forall|i: int| a <= i && i + 1 < b implies #[trigger] ts.push(t)[i] <= ts.push(t)[i + 1] by {
        assert(ts.push(t)[i] == ts[i]);
        assert(ts.push(t)[i + 1] == ts[i + 1]);
    }
}

proof fn lemma_tiles_push(sessions: Seq<(int, int)>, start: int, end: int)
    requires
        tiles(sessions, start),
        start < end,
    ensures
        tiles(sessions.push((start, end)), end),
{
    let s2 = sessions.push((start, end));
    assert forall|i: int| 0 <= i < s2.len() - 1 implies #[trigger] s2[i].1 == s2[i + 1].0 by {
        assert(s2[i] == sessions[i]);
        if i + 1 < sessions.len() {
            assert(s2[i + 1] == sessions[i + 1]);
        }
    }
    assert forall|i: int| 0 <= i < s2.len() implies #[trigger] s2[i].0 < s2[i].1 by {
        if i < sessions.len() {
            assert(s2[i] == sessions[i]);
        }
    }
}

proof fn lemma_step_decoded(s: ScanModel, ts: Seq<u32>, t: u32)
    requires
        scan_ok(s, ts),
    ensures
        scan_ok(scan_step(s, Some(t)), ts.push(t)),
{
    let s2 = scan_step(s, Some(t));
    let ts2 = ts.push(t);
    lemma_nd_extend(ts, t, s.start, s.count);
    assert forall|i: int| 0 <= i < s.sessions.len() implies non_decreasing(ts2, #[trigger] s.sessions[i].0, s.sessions[i].1) by {
        assert(non_decreasing(ts, s.sessions[i].0, s.sessions[i].1));
        lemma_tiles_bound(s.sessions, s.start, i);
        lemma_nd_extend(ts, t, s.sessions[i].0, s.sessions[i].1);
    }
    if s.last_t matches Some(l) && t < l {
        lemma_tiles_push(s.sessions, s.start, s.count);
        assert forall|i: int| 0 <= i < s2.sessions.len() implies non_decreasing(ts2, #[trigger] s2.sessions[i].0, s2.sessions[i].1) by {
            if i < s.sessions.len() {
                assert(s2.sessions[i] == s.sessions[i]);
            }
        }
    } else {
        assert forall|i: int| s2.start <= i && i + 1 < s2.count implies #[trigger] ts2[i] <= ts2[i + 1] by {
            if i + 1 < s.count {
                assert(ts2[i] == ts[i]);
                assert(ts2[i + 1] == ts[i + 1]);
            } else {
                assert(ts2[i] == ts[s.count - 1]);
            }
        }
    }
}

proof fn lemma_tiles_bound(sessions: Seq<(int, int)>, end: int, i: int)
    requires
        tiles(sessions, end),
        0 <= i < sessions.len(),
    ensures
        0 <= sessions[i].0 < sessions[i].1 <= end,
    decreases sessions.len() - i,
{
    if i + 1 < sessions.len() {
        lemma_tiles_bound(sessions, end, i + 1);
        assert(sessions[i].1 == sessions[i + 1].0);
    }
    if i > 0 {
        lemma_tiles_lower(sessions, end, i);
    }
}

proof fn lemma_tiles_lower(sessions: Seq<(int, int)>, end: int, i: int)
    requires
        tiles(sessions, end),
        0 <= i < sessions.len(),
    ensures
        0 <= sessions[i].0,
    decreases i,
{
    if i > 0 {
        lemma_tiles_lower(sessions, end, i - 1);
        assert(sessions[i - 1].1 == sessions[i].0);
        assert(sessions[i - 1].0 < sessions[i - 1].1);
    }
}

proof fn lemma_step_blank(s: ScanModel, ts: Seq<u32>)
    requires
        scan_ok(s, ts),
    ensures
        scan_ok(scan_step(s, None), ts),
{
    let s2 = scan_step(s, None);
    if s.count > s.start {
        lemma_tiles_push(s.sessions, s.start, s.count);
        assert forall|i: int| 0 <= i < s2.sessions.len() implies non_decreasing(ts, #[trigger] s2.sessions[i].0, s2.sessions[i].1) by {
            if i < s.sessions.len() {
                assert(s2.sessions[i] == s.sessions[i]);
            }
        }
    }
}

proof fn lemma_scan_ok(outcomes: Seq<Option<u32>>)
    ensures
        scan_ok(scan(outcomes), decoded_times(outcomes)),
    decreases outcomes.len(),
{
    if outcomes.len() > 0 {
        let prev = outcomes.drop_last();
        lemma_scan_ok(prev);
        match outcomes.last() {
            Some(t) => lemma_step_decoded(scan(prev), decoded_times(prev), t),
            None => lemma_step_blank(scan(prev), decoded_times(prev)),
        }
    }
}

/// The sessions found in a dump are non-empty, follow each other with no
/// gap, cover every record that decoded, and inside each session the
/// uptime never goes backward.
pub proof fn lemma_sessions_partition(outcomes: Seq<Option<u32>>)
    ensures
        tiles(sessions_of(outcomes), decoded_times(outcomes).len() as int),
        forall|i: int|
            0 <= i < sessions_of(outcomes).len() ==> non_decreasing(
                decoded_times(outcomes),
                #[trigger] sessions_of(outcomes)[i].0,
                sessions_of(outcomes)[i].1,
            ),
{
    lemma_scan_ok(outcomes);
    let s = scan(outcomes);
    let ss = sessions_of(outcomes);
    if s.count > s.start {
        assert forall|i: int| 0 <= i < ss.len() - 1 implies #[trigger] ss[i].1 == ss[i + 1].0 by {
            if i + 1 < s.sessions.len() {
                assert(ss[i] == s.sessions[i]);
                assert(ss[i + 1] == s.sessions[i + 1]);
            } else {
                assert(ss[i] == s.sessions[i]);
            }
        }
        assert forall|i: int| 0 <= i < ss.len() implies non_decreasing(decoded_times(outcomes), #[trigger] ss[i].0, ss[i].1) by {
            if i < s.sessions.len() {
                assert(ss[i] == s.sessions[i]);
            }
        }
    }
}

/// For each record that decoded, in scan order, whether the record just
/// before it in the dump did not decode (a blank or corrupt record lies
/// between it and the previous decoded record).
pub open spec fn after_blank(outcomes: Seq<Option<u32>>) -> Seq<bool>
    decreases outcomes.len(),
{
    if outcomes.len() == 0 {
        Seq::empty()
    } else {
        let prev = outcomes.drop_last();
        match outcomes.last() {
            Some(_) => after_blank(prev).push(prev.len() > 0 && prev.last() is None),
            None => after_blank(prev),
        }
    }
}

/// Whether some session of `sessions` starts at decoded record `b`.
pub open spec fn starts_at(sessions: Seq<(int, int)>, b: int) -> bool {
    exists|i: int| 0 <= i < sessions.len() && #[trigger] sessions[i].0 == b
}

spec fn scan_starts_at(s: ScanModel, b: int) -> bool {
    starts_at(s.sessions, b) || (b == s.start && s.start < s.count)
}

proof fn lemma_starts_at_push(sessions: Seq<(int, int)>, x: (int, int), b: int)
    ensures
        starts_at(sessions.push(x), b) <==> (starts_at(sessions, b) || x.0 == b),
{
    let s2 = sessions.push(x);
    if starts_at(sessions, b) {
        let i = choose|i: int| 0 <= i < sessions.len() && #[trigger] sessions[i].0 == b;
        assert(s2[i] == sessions[i]);
    }
    if x.0 == b {
        assert(s2[sessions.len() as int] == x);
    }
    if starts_at(s2, b) {
        let i = choose|i: int| 0 <= i < s2.len() && #[trigger] s2[i].0 == b;
        if i < sessions.len() {
            assert(s2[i] == sessions[i]);
        }
    }
}

proof fn lemma_after_blank_len(outcomes: Seq<Option<u32>>)
    ensures
        after_blank(outcomes).len() == decoded_times(outcomes).len(),
    decreases outcomes.len(),
{
    if outcomes.len() > 0 {
        lemma_after_blank_len(outcomes.drop_last());
    }
}

/// What the scan keeps true about where sessions start.
spec fn starts_ok(s: ScanModel, outcomes: Seq<Option<u32>>) -> bool {
    let ts = decoded_times(outcomes);
    let ab = after_blank(outcomes);
    &&& (outcomes.len() > 0 && outcomes.last() is None) ==> s.start == s.count
    &&& (s.start == s.count && s.count > 0) ==> outcomes.len() > 0 && outcomes.last() is None
    &&& forall|b: int| 0 < b < s.count ==> (#[trigger] scan_starts_at(s, b) <==> (ts[b] < ts[b - 1] || ab[b]))
}

proof fn lemma_scan_starts(outcomes: Seq<Option<u32>>)
    ensures
        starts_ok(scan(outcomes), outcomes),
    decreases outcomes.len(),
{
    if outcomes.len() > 0 {
        let o = outcomes.drop_last();
        lemma_scan_starts(o);
        lemma_scan_ok(o);
        lemma_after_blank_len(o);
        let s = scan(o);
        let ts = decoded_times(o);
        let ab = after_blank(o);
        let s2 = scan(outcomes);
        let ts2 = decoded_times(outcomes);
        let ab2 = after_blank(outcomes);
        let n = s.count;
        match outcomes.last() {
            Some(t) => {
                assert(ts2 == ts.push(t));
                assert(ab2 == ab.push(o.len() > 0 && o.last() is None));
                let split = s.last_t matches Some(l) && t < l;
                if split {
                    lemma_starts_at_push(s.sessions, (s.start, s.count), 0);
                }
                assert forall|b: int| 0 < b < s2.count implies (#[trigger] scan_starts_at(s2, b) <==> (ts2[b] < ts2[b - 1]
                    || ab2[b])) by {
                    if split {
                        lemma_starts_at_push(s.sessions, (s.start, s.count), b);
                    }
                    if b < n {
                        assert(ts2[b] == ts[b] && ts2[b - 1] == ts[b - 1] && ab2[b] == ab[b]);
                        assert(scan_starts_at(s, b) <==> (ts[b] < ts[b - 1] || ab[b]));
                    } else {
                        assert(b == n);
                        if !split && n > s.start {
                            if starts_at(s.sessions, b) {
                                let i = choose|i: int| 0 <= i < s.sessions.len() && #[trigger] s.sessions[i].0 == b;
                                lemma_tiles_bound(s.sessions, s.start, i);
                            }
                        }
                    }
                }
            },
            None => {
                assert(ts2 == ts);
                assert(ab2 == ab);
                assert forall|b: int| 0 < b < s2.count implies (#[trigger] scan_starts_at(s2, b) <==> (ts2[b] < ts2[b - 1]
                    || ab2[b])) by {
                    if n > s.start {
                        lemma_starts_at_push(s.sessions, (s.start, s.count), b);
                    }
                    assert(scan_starts_at(s, b) <==> (ts[b] < ts[b - 1] || ab[b]));
                }
            },
        }
    }
}

/// Sessions split exactly where the dump says a new one begins: a decoded
/// record (other than the first) starts a session if and only if its
/// uptime is lower than the previous decoded record's (a new power or arm
/// cycle), or a record that did not decode lies just before it. Records
/// read one after another with uptime not going backward always stay in
/// the same session, however many there are.
pub proof fn lemma_sessions_split_exactly_at_breaks(outcomes: Seq<Option<u32>>, b: int)
    requires
        0 < b < decoded_times(outcomes).len(),
    ensures
        starts_at(sessions_of(outcomes), b) <==> (decoded_times(outcomes)[b] < decoded_times(outcomes)[b - 1]
            || after_blank(outcomes)[b]),
{
    lemma_scan_starts(outcomes);
    lemma_scan_ok(outcomes);
    let s = scan(outcomes);
    assert(scan_starts_at(s, b) <==> (decoded_times(outcomes)[b] < decoded_times(outcomes)[b - 1]
        || after_blank(outcomes)[b]));
    if s.count > s.start {
        lemma_starts_at_push(s.sessions, (s.start, s.count), b);
    }
}

/// A scan in progress over a dump of `record_size`-byte records in
/// `sector_size`-byte sectors.
pub struct SessionScanner {
    record_size: usize,
    sector_size: usize,
    offset: usize,
    sessions: Vec<(usize, usize)>,
    start: usize,
    count: usize,
    last_t: Option<u32>,
    outcomes: Ghost<Seq<Option<u32>>>,
}

impl SessionScanner {
    /// The decode outcomes fed so far.
    pub closed spec fn spec_outcomes(&self) -> Seq<Option<u32>> {
        self.outcomes@
    }

    /// The byte offset of the next record to examine.
    pub closed spec fn spec_offset(&self) -> nat {
        self.offset as nat
    }

    pub closed spec fn spec_record_size(&self) -> nat {
        self.record_size as nat
    }

    pub closed spec fn spec_sector_size(&self) -> nat {
        self.sector_size as nat
    }

    /// The machine state mirrors the scan of the outcomes fed so far.
    pub closed spec fn wf(&self) -> bool {
        let m = scan(self.outcomes@);
        &&& self.record_size > 0
        &&& self.sector_size > 0
        &&& self.sessions@.len() == m.sessions.len()
        &&& forall|i: int| 0 <= i < m.sessions.len() ==> (#[trigger] self.sessions@[i]).0 == m.sessions[i].0 && self.sessions@[i].1 == m.sessions[i].1
        &&& self.start == m.start
        &&& self.count == m.count
        &&& self.last_t == m.last_t
        &&& self.count <= self.offset
    }

    /// A scan from offset 0.
    pub fn new(record_size: usize, sector_size: usize) -> (r: Self)
        requires
            record_size > 0,
            sector_size > 0,
        ensures
            r.wf(),
            r.spec_outcomes() == Seq::<Option<u32>>::empty(),
            r.spec_offset() == 0,
            r.spec_record_size() == record_size,
            r.spec_sector_size() == sector_size,
    {
        SessionScanner {
            record_size,
            sector_size,
            offset: 0,
            sessions: Vec::new(),
            start: 0,
            count: 0,
            last_t: None,
            outcomes: Ghost(Seq::empty()),
        }
    }

    /// The offset of the next whole record of a `data_len`-byte dump, if
    /// one is left.
    pub fn next_offset(&self, data_len: usize) -> (r: Option<usize>)
        ensures
            r == (if self.spec_offset() + self.spec_record_size() <= data_len {
                Some(self.spec_offset() as usize)
            } else {
                None
            }),
    {
        if self.offset <= data_len && self.record_size <= data_len - self.offset {
            Some(self.offset)
        } else {
            None
        }
    }

    /// Feed the outcome of decoding the record at the current offset: its
    /// uptime, or `None` if it did not decode. A decoded record moves on
    /// by one record; one that did not decode moves on to the next sector
    /// boundary after the current offset.
    pub fn feed(&mut self, outcome: Option<u32>)
        requires
            old(self).wf(),
            old(self).spec_offset() + old(self).spec_record_size() + old(self).spec_sector_size()
                <= usize::MAX,
        ensures
            final(self).wf(),
            final(self).spec_outcomes() == old(self).spec_outcomes().push(outcome),
            final(self).spec_record_size() == old(self).spec_record_size(),
            final(self).spec_sector_size() == old(self).spec_sector_size(),
            final(self).spec_offset() > old(self).spec_offset(),
            final(self).spec_offset() == (match outcome {
                Some(_) => old(self).spec_offset() + old(self).spec_record_size(),
                None => (old(self).spec_offset() / old(self).spec_sector_size() + 1) * old(self).spec_sector_size(),
            }),
    {
        let ghost before = self.outcomes@;
        proof {
            assert(before.push(outcome).drop_last() =~= before);
        }
        match outcome {
            Some(t) => {
                let split = match self.last_t {
                    Some(l) => t < l,
                    None => false,
                };
                if split {
                    self.sessions.push((self.start, self.count));
                    self.start = self.count;
                }
                self.count = self.count + 1;
                self.last_t = Some(t);
                self.offset = self.offset + self.record_size;
            },
            None => {
                if self.count > self.start {
                    self.sessions.push((self.start, self.count));
                }
                self.start = self.count;
                self.last_t = None;
                let q = self.offset / self.sector_size;
                assert((q + 1) * self.sector_size <= self.offset + self.sector_size) by (nonlinear_arith)
                    requires
                        q == self.offset / self.sector_size,
                        self.sector_size > 0,
                ;
                assert((q + 1) * self.sector_size > self.offset) by (nonlinear_arith)
                    requires
                        q == self.offset / self.sector_size,
                        self.sector_size > 0,
                ;
                self.offset = (q + 1) * self.sector_size;
            },
        }
        self.outcomes = Ghost(before.push(outcome));
    }

    /// The sessions found, once the dump is exhausted.
    pub fn finish(self) -> (r: Vec<(usize, usize)>)
        requires
            self.wf(),
        ensures
            r@.len() == sessions_of(self.spec_outcomes()).len(),
            forall|i: int|
                0 <= i < r@.len() ==> (#[trigger] r@[i]).0 == sessions_of(self.spec_outcomes())[i].0
                    && r@[i].1 == sessions_of(self.spec_outcomes())[i].1,
    {
        let mut sessions = self.sessions;
        if self.count > self.start {
            sessions.push((self.start, self.count));
        }
        sessions
    }
}

} // verus!
