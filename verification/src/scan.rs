//! Streaming search of a file for embedded images, embedded compound
//! documents and installer marks.
//!
//! The file is looked at through windows of `block + OVERLAP` bytes that
//! start every `block` bytes, so whatever stands across a block boundary is
//! seen whole in one of two neighbouring windows.
use crate::bytes::{has_at, law_patterns_stand_where_their_bytes_are, le32, stands_at, u32_le};
use crate::reading::{Fill, ReadEvent};
use vstd::prelude::*;
use vstd::set_lib::lemma_len_subset;
use vstd::slice::slice_subrange;

verus! {

/// Start of an OLE compound document, the container of an MSI package.
pub const OLE_MAGIC: [u8; 8] = [0xD0, 0xCF, 0x11, 0xE0, 0xA1, 0xB1, 0x1A, 0xE1];

/// Part of the NSIS first header: `0xDEADBEEF` followed by `NullsoftInst`.
pub const NSIS_MAGIC: [u8; 16] = [
    0xEF,
    0xBE,
    0xAD,
    0xDE,
    0x4E,
    0x75,
    0x6C,
    0x6C,
    0x73,
    0x6F,
    0x66,
    0x74,
    0x49,
    0x6E,
    0x73,
    0x74,
];

/// `Inno Setup Setup Data`, the mark of the Inno Setup compiler. Its payload
/// is compressed and opaque to a static scan.
pub const INNO_TAG: [u8; 21] = [
    0x49,
    0x6E,
    0x6E,
    0x6F,
    0x20,
    0x53,
    0x65,
    0x74,
    0x75,
    0x70,
    0x20,
    0x53,
    0x65,
    0x74,
    0x75,
    0x70,
    0x20,
    0x44,
    0x61,
    0x74,
    0x61,
];

/// Block size of the streaming scan.
pub const BLOCK_SIZE: usize = 1048576;

/// Length of the stretch that two neighbouring windows share. It covers the
/// longest mark and the distance from `MZ` to the end of `e_lfanew`.
pub const OVERLAP: usize = 128;

/// Huge files are not scanned to the end: a window at or above this offset is
/// the last one.
pub const MAX_SCAN_BYTES: u64 = 536870912;

/// Upper bound for plausible `e_lfanew` values (size of the DOS stub).
pub const MAX_DOS_STUB: u32 = 0x1000;

/// Cap for the collected candidates of one kind.
pub const MAX_CANDIDATES: usize = 8192;

/// What a scan found.
pub struct Scan {
    /// Offsets of `MZ` sequences whose `e_lfanew` looks plausible.
    pub mz_candidates: Vec<u64>,
    /// Offsets of compound documents, which may be nested MSI packages.
    pub ole_candidates: Vec<u64>,
    /// Whether the NSIS mark was seen.
    pub is_nsis: bool,
    /// Whether the Inno Setup mark was seen.
    pub is_inno: bool,
}

impl Default for Scan {
    fn default() -> (s: Scan)
        ensures
            s.mz_candidates@ == Seq::<u64>::empty(),
            s.ole_candidates@ == Seq::<u64>::empty(),
            !s.is_nsis,
            !s.is_inno,
    {
        Scan {
            mz_candidates: Vec::new(),
            ole_candidates: Vec::new(),
            is_nsis: false,
            is_inno: false,
        }
    }
}

// ---------------------------------------------------------------------
// What counts as a hit
// ---------------------------------------------------------------------

/// The two kinds of candidates.
pub enum Mark {
    /// An executable image.
    Image,
    /// A compound document.
    Document,
}

/// Whether an image may start at `i` of a buffer that stands at `base` of the
/// file: `MZ`, followed by a plausible `e_lfanew`. The first 0x40 bytes of
/// the file belong to the image of the file itself.
pub open spec fn mz_at(buf: Seq<u8>, base: int, i: int) -> bool {
    &&& 0 <= i && i + 1 < buf.len()
    &&& buf[i] == 0x4D && buf[i + 1] == 0x5A
    &&& base + i >= 0x40
    &&& le32(buf, i + 0x3C) matches Some(l)
    &&& 0x40 <= l <= MAX_DOS_STUB
}

/// Whether a candidate of the given kind starts at `i` of the buffer.
pub open spec fn hit_at(mark: Mark, buf: Seq<u8>, base: int, i: int) -> bool {
    match mark {
        Mark::Image => mz_at(buf, base, i),
        Mark::Document => stands_at(buf, i, OLE_MAGIC@),
    }
}

/// The file offsets of the hits among the first `n` positions of a buffer
/// that stands at `base`, in ascending order.
pub open spec fn offsets(mark: Mark, buf: Seq<u8>, base: int, n: int) -> Seq<u64>
    decreases n,
{
    if n <= 0 {
        seq![]
    } else if hit_at(mark, buf, base, n - 1) {
        offsets(mark, buf, base, n - 1).push((base + n - 1) as u64)
    } else {
        offsets(mark, buf, base, n - 1)
    }
}

/// The file offsets of all hits in a buffer that stands at `base`.
pub open spec fn all_offsets(mark: Mark, buf: Seq<u8>, base: int) -> Seq<u64> {
    offsets(mark, buf, base, buf.len() as int)
}

/// Whether the pattern stands anywhere in the buffer.
pub open spec fn holds(buf: Seq<u8>, pattern: Seq<u8>) -> bool {
    exists|i: int| #[trigger] stands_at(buf, i, pattern)
}

/// A list that takes further items only up to `MAX_CANDIDATES` of them.
pub open spec fn capped(held: Seq<u64>, more: Seq<u64>) -> Seq<u64> {
    let room = MAX_CANDIDATES - held.len();
    if more.len() <= room {
        held + more
    } else if room > 0 {
        held + more.take(room)
    } else {
        held
    }
}

/// Strictly ascending order, so no item twice.
pub open spec fn ascending(s: Seq<u64>) -> bool {
    forall|i: int, j: int| 0 <= i < j < s.len() ==> s[i] < s[j]
}

/// `s` lists the items of `items` in ascending order, each once.
pub open spec fn is_ordered_set(s: Seq<u64>, items: Seq<u64>) -> bool {
    &&& ascending(s)
    &&& forall|x: u64| s.contains(x) <==> items.contains(x)
}

// ---------------------------------------------------------------------
// One buffer
// ---------------------------------------------------------------------

proof fn lemma_capped_push(held: Seq<u64>, more: Seq<u64>, x: u64)
    ensures
        capped(held, more.push(x)) == (if capped(held, more).len() < MAX_CANDIDATES {
            capped(held, more).push(x)
        } else {
            capped(held, more)
        }),
{
    let room = MAX_CANDIDATES - held.len();
    if more.len() < room {
        assert(held + more.push(x) == (held + more).push(x));
    } else if more.len() == room {
        if room > 0 {
            assert(more.push(x).take(room) == more);
        } else {
            assert(held + more == held);
        }
    } else if room > 0 {
        assert(more.push(x).take(room) == more.take(room));
    }
}

/// Looks through a buffer that stands at offset `base` of the file.
pub fn scan_slice(buf: &[u8], base: u64, scan: &mut Scan)
    requires
        base + buf@.len() <= u64::MAX,
    ensures
        final(scan).mz_candidates@ == capped(
            old(scan).mz_candidates@,
            all_offsets(Mark::Image, buf@, base as int),
        ),
        final(scan).ole_candidates@ == capped(
            old(scan).ole_candidates@,
            all_offsets(Mark::Document, buf@, base as int),
        ),
        final(scan).is_nsis == (old(scan).is_nsis || holds(buf@, NSIS_MAGIC@)),
        final(scan).is_inno == (old(scan).is_inno || holds(buf@, INNO_TAG@)),
{
    let len: usize = buf.len();
    proof {
        assert(old(scan).mz_candidates@ + Seq::<u64>::empty() == old(scan).mz_candidates@);
        assert(old(scan).ole_candidates@ + Seq::<u64>::empty() == old(scan).ole_candidates@);
    }
    for i in 0..len
        invariant
            len == buf@.len(),
            base + buf@.len() <= u64::MAX,
            scan.mz_candidates@ == capped(
                old(scan).mz_candidates@,
                offsets(Mark::Image, buf@, base as int, i as int),
            ),
            scan.ole_candidates@ == capped(
                old(scan).ole_candidates@,
                offsets(Mark::Document, buf@, base as int, i as int),
            ),
            scan.is_nsis == (old(scan).is_nsis || exists|j: int|
                j < i && #[trigger] stands_at(buf@, j, NSIS_MAGIC@)),
            scan.is_inno == (old(scan).is_inno || exists|j: int|
                j < i && #[trigger] stands_at(buf@, j, INNO_TAG@)),
    {
        let b: u8 = buf[i];
        let at: u64 = base + i as u64;
        let ghost mz0 = offsets(Mark::Image, buf@, base as int, i as int);
        let ghost ole0 = offsets(Mark::Document, buf@, base as int, i as int);
        proof {
            lemma_capped_push(old(scan).mz_candidates@, mz0, at);
            lemma_capped_push(old(scan).ole_candidates@, ole0, at);
            lemma_first_byte(buf@, i as int);
        }
        if b == 0x4D {
            if len - i >= 0x40 && buf[i + 1] == 0x5A && at >= 0x40 {
                let field = u32_le(buf, i + 0x3C);
                if let Some(l) = field {
                    if 0x40 <= l && l <= MAX_DOS_STUB {
                        assert(mz_at(buf@, base as int, i as int));
                        if scan.mz_candidates.len() < MAX_CANDIDATES {
                            scan.mz_candidates.push(at);
                        }
                    }
                }
            }
        } else if b == 0xD0 {
            if has_at(buf, i, OLE_MAGIC.as_slice()) {
                if scan.ole_candidates.len() < MAX_CANDIDATES {
                    scan.ole_candidates.push(at);
                }
            }
        } else if b == 0xEF {
            if has_at(buf, i, NSIS_MAGIC.as_slice()) {
                scan.is_nsis = true;
            }
        } else if b == 0x49 {
            if has_at(buf, i, INNO_TAG.as_slice()) {
                scan.is_inno = true;
            }
        }
    }
}

/// The marks start with different bytes.
proof fn lemma_first_byte(buf: Seq<u8>, i: int)
    ensures
        stands_at(buf, i, OLE_MAGIC@) ==> buf[i] == 0xD0,
        stands_at(buf, i, NSIS_MAGIC@) ==> buf[i] == 0xEF,
        stands_at(buf, i, INNO_TAG@) ==> buf[i] == 0x49,
{
    if stands_at(buf, i, OLE_MAGIC@) {
        assert(buf.subrange(i, i + OLE_MAGIC@.len())[0] == OLE_MAGIC@[0]);
    }
    if stands_at(buf, i, NSIS_MAGIC@) {
        assert(buf.subrange(i, i + NSIS_MAGIC@.len())[0] == NSIS_MAGIC@[0]);
    }
    if stands_at(buf, i, INNO_TAG@) {
        assert(buf.subrange(i, i + INNO_TAG@.len())[0] == INNO_TAG@[0]);
    }
}

// ---------------------------------------------------------------------
// The whole file
// ---------------------------------------------------------------------

/// The `k`-th window of the file.
pub open spec fn window(data: Seq<u8>, block: int, k: int) -> Seq<u8> {
    let end = k * block + block + OVERLAP;
    data.subrange(
        k * block,
        if end < data.len() {
            end
        } else {
            data.len() as int
        },
    )
}

/// How many windows a file of `len` bytes fills to the end.
pub open spec fn full_windows(len: int, block: int) -> int {
    if len < OVERLAP {
        0
    } else {
        (len - OVERLAP) / block
    }
}

/// How many windows start below `MAX_SCAN_BYTES`.
pub open spec fn low_windows(block: int) -> int {
    (MAX_SCAN_BYTES + block - 1) / block
}

/// How many windows are looked at: each window that the file fills and that
/// starts below the limit is followed by one more.
pub open spec fn window_count(len: int, block: int) -> int {
    let full = full_windows(len, block);
    let low = low_windows(block);
    1 + if full < low {
        full
    } else {
        low
    }
}

/// The hits in the first `n` windows, window by window. What stands in the
/// shared stretch of two windows is listed twice.
pub open spec fn window_offsets(mark: Mark, data: Seq<u8>, block: int, n: int) -> Seq<u64>
    decreases n,
{
    if n <= 0 {
        seq![]
    } else {
        window_offsets(mark, data, block, n - 1) + all_offsets(
            mark,
            window(data, block, n - 1),
            (n - 1) * block,
        )
    }
}

/// Whether the pattern stands in one of the first `n` windows.
pub open spec fn window_holds(data: Seq<u8>, block: int, n: int, pattern: Seq<u8>) -> bool {
    exists|k: int| 0 <= k < n && holds(#[trigger] window(data, block, k), pattern)
}

/// The candidates that a scan of the file keeps, in the order in which they
/// are met.
pub open spec fn kept(mark: Mark, data: Seq<u8>, block: int) -> Seq<u64> {
    capped(
        Seq::empty(),
        window_offsets(mark, data, block, window_count(data.len() as int, block)),
    )
}

/// What a scan of the file reports.
pub open spec fn reports(scan: Scan, data: Seq<u8>, block: int) -> bool {
    let n = window_count(data.len() as int, block);
    &&& is_ordered_set(scan.mz_candidates@, kept(Mark::Image, data, block))
    &&& is_ordered_set(scan.ole_candidates@, kept(Mark::Document, data, block))
    &&& scan.is_nsis == window_holds(data, block, n, NSIS_MAGIC@)
    &&& scan.is_inno == window_holds(data, block, n, INNO_TAG@)
}

proof fn lemma_capped_join(held: Seq<u64>, a: Seq<u64>, b: Seq<u64>)
    ensures
        capped(capped(held, a), b) == capped(held, a + b),
{
    let room = MAX_CANDIDATES - held.len();
    if a.len() <= room {
        let left = room - a.len();
        if b.len() <= left {
            assert(held + a + b == held + (a + b));
        } else if left > 0 {
            assert(held + a + b.take(left) == held + (a + b).take(room));
        } else {
            if room > 0 {
                assert((a + b).take(room) == a);
            } else {
                assert(held + a == held);
            }
        }
    } else if room > 0 {
        assert((a + b).take(room) == a.take(room));
    }
}

/// Bytes behind the windows do not change what stands in them.
proof fn lemma_window_offsets_extend(
    mark: Mark,
    data: Seq<u8>,
    more: Seq<u8>,
    block: int,
    n: int,
)
    requires
        block > 0,
        n > 0 ==> n * block + OVERLAP <= data.len(),
    ensures
        window_offsets(mark, data + more, block, n) == window_offsets(mark, data, block, n),
    decreases n,
{
    if n > 0 {
        let m = n - 1;
        assert(m * block + block == n * block) by (nonlinear_arith)
            requires
                m == n - 1,
        ;
        assert(m * block >= 0) by (nonlinear_arith)
            requires
                m >= 0,
                block > 0,
        ;
        lemma_window_offsets_extend(mark, data, more, block, m);
        assert(window(data + more, block, m) == window(data, block, m));
    }
}

proof fn lemma_window_extend(data: Seq<u8>, more: Seq<u8>, block: int, n: int, k: int)
    requires
        block > 0,
        0 <= k < n,
        n * block + OVERLAP <= data.len(),
    ensures
        window(data + more, block, k) == window(data, block, k),
{
    assert(0 <= k * block && k * block + block <= n * block) by (nonlinear_arith)
        requires
            0 <= k < n,
            block > 0,
    ;
}

proof fn lemma_window_holds_extend(
    data: Seq<u8>,
    more: Seq<u8>,
    block: int,
    n: int,
    pattern: Seq<u8>,
)
    requires
        block > 0,
        n > 0 ==> n * block + OVERLAP <= data.len(),
    ensures
        window_holds(data + more, block, n, pattern) == window_holds(data, block, n, pattern),
{
    assert forall|k: int| 0 <= k < n implies window(data + more, block, k) == window(
        data,
        block,
        k,
    ) by {
        lemma_window_extend(data, more, block, n, k);
    }
    if window_holds(data, block, n, pattern) {
        let k = choose|k: int| 0 <= k < n && holds(#[trigger] window(data, block, k), pattern);
        assert(holds(window(data + more, block, k), pattern));
    }
    if window_holds(data + more, block, n, pattern) {
        let k = choose|k: int|
            0 <= k < n && holds(#[trigger] window(data + more, block, k), pattern);
        assert(holds(window(data, block, k), pattern));
    }
}

proof fn lemma_window_holds_next(data: Seq<u8>, block: int, n: int, pattern: Seq<u8>)
    requires
        n >= 0,
    ensures
        window_holds(data, block, n + 1, pattern) == (window_holds(data, block, n, pattern)
            || holds(window(data, block, n), pattern)),
{
    if window_holds(data, block, n, pattern) {
        let k = choose|k: int| 0 <= k < n && holds(#[trigger] window(data, block, k), pattern);
        assert(0 <= k < n + 1 && holds(window(data, block, k), pattern));
    }
    if window_holds(data, block, n + 1, pattern) {
        let k = choose|k: int| 0 <= k < n + 1 && holds(#[trigger] window(data, block, k), pattern);
        if k < n {
            assert(holds(window(data, block, k), pattern));
        }
    }
    if holds(window(data, block, n), pattern) {
        assert(0 <= n < n + 1);
    }
}

/// When the window after `k` others is the last one.
proof fn lemma_window_count(len: int, block: int, k: int)
    requires
        block > 0,
        k >= 0,
        k > 0 ==> k * block + OVERLAP <= len,
        k > 0 ==> (k - 1) * block < MAX_SCAN_BYTES,
        len < k * block + block + OVERLAP || MAX_SCAN_BYTES <= k * block,
    ensures
        window_count(len, block) == k + 1,
{
    let full = full_windows(len, block);
    let low = low_windows(block);
    let x = len - OVERLAP;
    let y = MAX_SCAN_BYTES + block - 1;
    assert(k * block >= 0) by (nonlinear_arith)
        requires
            k >= 0,
            block > 0,
    ;
    assert(y / block >= k) by (nonlinear_arith)
        requires
            y == MAX_SCAN_BYTES + block - 1,
            block > 0,
            k >= 0,
            k > 0 ==> (k - 1) * block < MAX_SCAN_BYTES,
    ;
    if x >= 0 {
        assert(x / block >= k) by (nonlinear_arith)
            requires
                x >= 0,
                block > 0,
                k >= 0,
                k > 0 ==> k * block <= x,
        ;
    }
    if len < k * block + block + OVERLAP {
        if x >= 0 {
            assert(x / block <= k) by (nonlinear_arith)
                requires
                    x >= 0,
                    block > 0,
                    x < k * block + block,
            ;
        }
    } else {
        assert(y / block <= k) by (nonlinear_arith)
            requires
                y == MAX_SCAN_BYTES + block - 1,
                block > 0,
                MAX_SCAN_BYTES <= k * block,
        ;
    }
}

/// The items in ascending order, each once.
pub fn ordered_set(items: &Vec<u64>) -> (out: Vec<u64>)
    ensures
        is_ordered_set(out@, items@),
{
    let mut out: Vec<u64> = Vec::new();
    for i in 0..items.len()
        invariant
            is_ordered_set(out@, items@.take(i as int)),
    {
        let x: u64 = items[i];
        let ghost before = out@;
        let ghost seen = items@.take(i as int);
        let mut at: usize = out.len();
        while at > 0 && out[at - 1] > x
            invariant
                at <= out.len(),
                out@ == before,
                forall|j: int| at <= j < out@.len() ==> out@[j] > x,
            decreases at,
        {
            at -= 1;
        }
        proof {
            assert(items@.take(i + 1) == seen.push(x));
            assert(seen.push(x).last() == x);
            assert(seen.push(x).contains(x));
        }
        if at > 0 && out[at - 1] == x {
            proof {
                assert(before[at - 1] == x);
                assert(before.contains(x));
                assert forall|y: u64| out@.contains(y) <==> seen.push(x).contains(y) by {
                    lemma_push_contains(seen, x, y);
                }
            }
        } else {
            out.insert(at, x);
            proof {
                assert(out@ == before.insert(at as int, x));
                assert forall|j: int, k: int| 0 <= j < k < out@.len() implies out@[j] < out@[k] by {
                    if k < at {
                        assert(before[j] < before[k]);
                    } else if k == at {
                        assert(before[at - 1] < x);
                        assert(j < at - 1 ==> before[j] < before[at - 1]);
                    } else if j < at {
                        assert(before[j] < before[k - 1]);
                    } else if j == at {
                        assert(before[k - 1] > x);
                    } else {
                        assert(before[j - 1] < before[k - 1]);
                    }
                }
                assert forall|y: u64| out@.contains(y) <==> seen.push(x).contains(y) by {
                    lemma_push_contains(seen, x, y);
                    lemma_insert_contains(before, at as int, x, y);
                }
            }
        }
    }
    assert(items@.take(items.len() as int) == items@);
    out
}

proof fn lemma_push_contains(s: Seq<u64>, x: u64, y: u64)
    ensures
        s.push(x).contains(y) <==> (s.contains(y) || y == x),
{
    if s.contains(y) {
        let i = choose|i: int| 0 <= i < s.len() && s[i] == y;
        assert(s.push(x)[i] == y);
    }
    if y == x {
        assert(s.push(x)[s.len() as int] == y);
    }
    if s.push(x).contains(y) {
        let i = choose|i: int| 0 <= i < s.push(x).len() && s.push(x)[i] == y;
        if i < s.len() {
            assert(s[i] == y);
        }
    }
}

proof fn lemma_insert_contains(s: Seq<u64>, at: int, x: u64, y: u64)
    requires
        0 <= at <= s.len(),
    ensures
        s.insert(at, x).contains(y) <==> (s.contains(y) || y == x),
{
    let t = s.insert(at, x);
    if s.contains(y) {
        let i = choose|i: int| 0 <= i < s.len() && s[i] == y;
        if i < at {
            assert(t[i] == y);
        } else {
            assert(t[i + 1] == y);
        }
    }
    if y == x {
        assert(t[at] == y);
    }
    if t.contains(y) {
        let i = choose|i: int| 0 <= i < t.len() && t[i] == y;
        if i < at {
            assert(s[i] == y);
        } else if i > at {
            assert(s[i - 1] == y);
        }
    }
}

/// A scan in progress. The owner reads the file from its start and hands over
/// the outcome of every read, until nothing more is wanted.
pub struct ScanState {
    fill: Fill,
    base: u64,
    block: usize,
    scan: Scan,
    done: bool,
    seen: Ghost<Seq<u8>>,
}

impl ScanState {
    /// The bytes of the file that were handed over so far.
    pub closed spec fn seen(&self) -> Seq<u8> {
        self.seen@
    }

    /// The block size.
    pub closed spec fn block(&self) -> int {
        self.block as int
    }

    /// Whether the scan needs no further bytes.
    pub closed spec fn done(&self) -> bool {
        self.done
    }

    /// The bytes that are missing from the current window.
    pub closed spec fn missing(&self) -> int {
        self.block + OVERLAP - self.fill.buf@.len()
    }

    /// The windows in front of the current one have been looked at.
    spec fn looked_at(&self, n: int) -> bool {
        let s = self.seen@;
        let b = self.block as int;
        &&& self.scan.mz_candidates@ == capped(
            Seq::empty(),
            window_offsets(Mark::Image, s, b, n),
        )
        &&& self.scan.ole_candidates@ == capped(
            Seq::empty(),
            window_offsets(Mark::Document, s, b, n),
        )
        &&& self.scan.is_nsis == window_holds(s, b, n, NSIS_MAGIC@)
        &&& self.scan.is_inno == window_holds(s, b, n, INNO_TAG@)
    }

    /// The current window is the one after `k` others.
    spec fn stands_after(&self, k: int) -> bool {
        let s = self.seen@;
        let b = self.block as int;
        &&& k >= 0
        &&& self.base == k * b
        &&& k > 0 ==> k * b + OVERLAP <= s.len()
        &&& k > 0 ==> (k - 1) * b < MAX_SCAN_BYTES
        &&& k * b <= s.len()
        &&& self.fill.buf@ == s.skip(k * b)
    }

    /// Validity of the state.
    pub closed spec fn wf(&self) -> bool {
        &&& OVERLAP <= self.block
        &&& self.block + OVERLAP <= isize::MAX
        &&& self.fill.wf()
        &&& self.fill.limit == self.block + OVERLAP
        &&& if self.done {
            self.looked_at(window_count(self.seen@.len() as int, self.block as int))
        } else {
            &&& !self.fill.ended
            &&& self.fill.buf@.len() < self.fill.limit
            &&& exists|k: int| #[trigger] self.stands_after(k) && self.looked_at(k)
        }
    }

    /// A scan at the start of a file.
    pub fn new(block: usize) -> (s: ScanState)
        requires
            OVERLAP <= block,
            block + OVERLAP <= isize::MAX,
        ensures
            s.wf(),
            s.block() == block,
            s.seen() == Seq::<u8>::empty(),
            !s.done(),
    {
        let s = ScanState {
            fill: Fill::new(block + OVERLAP),
            base: 0,
            block,
            scan: Scan::default(),
            done: false,
            seen: Ghost(Seq::empty()),
        };
        proof {
            assert(0 * (block as int) == 0);
            assert(s.seen@.len() == 0);
            assert(s.fill.buf@ == s.seen@.skip(0));
            assert(Seq::<u64>::empty() + Seq::<u64>::empty() == Seq::<u64>::empty());
            assert(s.stands_after(0));
        }
        s
    }

    /// How many bytes the next read may bring; none when the scan is done.
    pub fn wanted(&self) -> (n: usize)
        requires
            self.wf(),
        ensures
            self.done() <==> n == 0,
            !self.done() ==> n == self.missing(),
            !self.done() ==> self.seen().len() + n <= scan_limit(self.block()),
    {
        if self.done {
            0
        } else {
            proof {
                let k = choose|k: int| #[trigger] self.stands_after(k) && self.looked_at(k);
                lemma_window_below_limit(self.block as int, k);
            }
            self.fill.wanted()
        }
    }

    /// Takes the outcome of one read. The scan is done once the file has
    /// ended, and once a window at or above the limit has been filled.
    pub fn on_read(&mut self, event: ReadEvent<'_>)
        requires
            old(self).wf(),
            !old(self).done(),
            event.bytes().len() <= old(self).missing(),
        ensures
            final(self).wf(),
            final(self).block() == old(self).block(),
            final(self).seen() == old(self).seen() + event.bytes(),
            final(self).seen().len() <= scan_limit(old(self).block()),
            final(self).done() <==> (event.ends() || limit_reached(
                final(self).seen().len() as int,
                old(self).block(),
            )),
    {
        let ghost k = choose|k: int| #[trigger] self.stands_after(k) && self.looked_at(k);
        let ghost b = self.block as int;
        let ghost s0 = self.seen@;
        let ghost more = event.bytes();
        let ghost s = s0 + more;
        self.fill.on_read(event);
        self.seen = Ghost(s);
        proof {
            lemma_window_below_limit(b, k);
            lemma_window_offsets_extend(Mark::Image, s0, more, b, k);
            lemma_window_offsets_extend(Mark::Document, s0, more, b, k);
            lemma_window_holds_extend(s0, more, b, k, NSIS_MAGIC@);
            lemma_window_holds_extend(s0, more, b, k, INNO_TAG@);
            assert(s.skip(k * b) == s0.skip(k * b) + more);
            assert(self.stands_after(k));
            assert(self.looked_at(k));
        }
        if self.fill.wanted() > 0 {
            proof {
                lemma_limit_reached(s.len() as int, b, k);
            }
            return;
        }
        proof {
            lemma_base_small(b, k);
            assert(window(s, b, k) == self.fill.buf@);
        }
        let ghost held = self.scan;
        scan_slice(self.fill.buf.as_slice(), self.base, &mut self.scan);
        proof {
            lemma_capped_join(
                Seq::empty(),
                window_offsets(Mark::Image, s, b, k),
                all_offsets(Mark::Image, window(s, b, k), k * b),
            );
            lemma_capped_join(
                Seq::empty(),
                window_offsets(Mark::Document, s, b, k),
                all_offsets(Mark::Document, window(s, b, k), k * b),
            );
            lemma_window_holds_next(s, b, k, NSIS_MAGIC@);
            lemma_window_holds_next(s, b, k, INNO_TAG@);
            assert(self.looked_at(k + 1));
            lemma_limit_reached(s.len() as int, b, k);
        }
        if self.fill.ended || self.base >= MAX_SCAN_BYTES {
            proof {
                lemma_window_count(s.len() as int, b, k);
            }
            self.done = true;
            return;
        }
        let tail = self.fill.buf.split_off(self.block);
        self.fill.buf = tail;
        self.base = self.base + self.block as u64;
        proof {
            assert((k + 1) * b == k * b + b) by (nonlinear_arith);
            assert(self.fill.buf@ == s.skip((k + 1) * b));
            assert(self.stands_after(k + 1));
            assert(self.looked_at(k + 1));
        }
    }

    /// The result of a scan that is done.
    pub fn finish(self) -> (scan: Scan)
        requires
            self.wf(),
            self.done(),
        ensures
            reports(scan, self.seen(), self.block()),
    {
        Scan {
            mz_candidates: ordered_set(&self.scan.mz_candidates),
            ole_candidates: ordered_set(&self.scan.ole_candidates),
            is_nsis: self.scan.is_nsis,
            is_inno: self.scan.is_inno,
        }
    }
}

/// How many bytes a scan takes at most, however long the file is: up to the
/// end of the first window that starts at or above `MAX_SCAN_BYTES`.
pub open spec fn scan_limit(block: int) -> int {
    low_windows(block) * block + block + OVERLAP
}

/// Whether `len` bytes fill a window that starts at or above the limit.
pub open spec fn limit_reached(len: int, block: int) -> bool {
    scan_limit(block) <= len
}

proof fn lemma_window_below_limit(block: int, k: int)
    requires
        block > 0,
        k >= 0,
        k > 0 ==> (k - 1) * block < MAX_SCAN_BYTES,
    ensures
        k * block + block + OVERLAP <= scan_limit(block),
{
    let low = low_windows(block);
    let y = MAX_SCAN_BYTES + block - 1;
    assert(low >= k) by (nonlinear_arith)
        requires
            low == y / block,
            y == MAX_SCAN_BYTES + block - 1,
            block > 0,
            k >= 0,
            k > 0 ==> (k - 1) * block < MAX_SCAN_BYTES,
    ;
    assert(k * block <= low * block) by (nonlinear_arith)
        requires
            k <= low,
            block > 0,
    ;
}

proof fn lemma_limit_reached(len: int, block: int, k: int)
    requires
        block > 0,
        k >= 0,
        k > 0 ==> (k - 1) * block < MAX_SCAN_BYTES,
        k * block <= len <= k * block + block + OVERLAP,
    ensures
        limit_reached(len, block) <==> (len == k * block + block + OVERLAP && MAX_SCAN_BYTES <= k
            * block),
{
    let low = low_windows(block);
    let y = MAX_SCAN_BYTES + block - 1;
    assert(low >= k) by (nonlinear_arith)
        requires
            low == y / block,
            y == MAX_SCAN_BYTES + block - 1,
            block > 0,
            k >= 0,
            k > 0 ==> (k - 1) * block < MAX_SCAN_BYTES,
    ;
    if MAX_SCAN_BYTES <= k * block {
        assert(low <= k) by (nonlinear_arith)
            requires
                low == y / block,
                y == MAX_SCAN_BYTES + block - 1,
                block > 0,
                MAX_SCAN_BYTES <= k * block,
        ;
    } else {
        assert(low > k) by (nonlinear_arith)
            requires
                low == y / block,
                y == MAX_SCAN_BYTES + block - 1,
                block > 0,
                MAX_SCAN_BYTES > k * block,
        ;
        assert(low * block >= k * block + block) by (nonlinear_arith)
            requires
                low >= k + 1,
                block > 0,
        ;
    }
}

/// The offset of a window leaves room for the window itself.
proof fn lemma_base_small(block: int, k: int)
    requires
        0 < block,
        block + OVERLAP <= isize::MAX,
        k >= 0,
        k > 0 ==> (k - 1) * block < MAX_SCAN_BYTES,
    ensures
        k * block + block + OVERLAP <= u64::MAX,
{
    if k > 1 {
        assert(block < MAX_SCAN_BYTES && k * block < 2 * MAX_SCAN_BYTES) by (nonlinear_arith)
            requires
                k > 1,
                block > 0,
                (k - 1) * block < MAX_SCAN_BYTES,
        ;
    } else if k == 1 {
        assert(k * block == block);
    } else {
        assert(k * block == 0);
    }
}

/// Scans a file that is at hand as a whole, in blocks of the given size.
pub fn scan_file(data: &[u8], block: usize) -> (scan: Scan)
    requires
        OVERLAP <= block,
        block + OVERLAP <= isize::MAX,
    ensures
        reports(scan, data@, block as int),
{
    let mut state = ScanState::new(block);
    let mut at: usize = 0;
    while state.wanted() > 0
        invariant
            OVERLAP <= block,
            state.wf(),
            state.block() == block,
            at <= data.len(),
            state.seen() == data@.take(at as int),
            state.done() ==> (at == data.len() || limit_reached(at as int, block as int)),
        decreases data.len() - at, (if state.done() {
                0int
            } else {
                1int
            }),
    {
        let wanted: usize = state.wanted();
        let n: usize = if data.len() - at < wanted {
            data.len() - at
        } else {
            wanted
        };
        let piece = slice_subrange(data, at, at + n);
        state.on_read(ReadEvent::Data(piece));
        assert(data@.take(at as int) + piece@ == data@.take(at + n));
        at = at + n;
    }
    proof {
        if at == data.len() {
            assert(data@.take(at as int) == data@);
        } else {
            lemma_rest_unseen(data@, block as int, at as int);
        }
    }
    state.finish()
}

/// What stands behind the last window makes no difference.
proof fn lemma_rest_unseen(data: Seq<u8>, block: int, n: int)
    requires
        block > 0,
        0 <= n <= data.len(),
        limit_reached(n, block),
    ensures
        forall|scan: Scan| reports(scan, data.take(n), block) <==> reports(scan, data, block),
{
    let low = low_windows(block);
    let y = MAX_SCAN_BYTES + block - 1;
    assert(low >= 1 && (low - 1) * block < MAX_SCAN_BYTES <= low * block) by (nonlinear_arith)
        requires
            low == y / block,
            y == MAX_SCAN_BYTES + block - 1,
            block > 0,
    ;
    assert((low + 1) * block == low * block + block) by (nonlinear_arith);
    lemma_window_count(n, block, low);
    lemma_window_count(data.len() as int, block, low);
    assert(data.take(n) + data.skip(n) == data);
    lemma_window_offsets_extend(Mark::Image, data.take(n), data.skip(n), block, low + 1);
    lemma_window_offsets_extend(Mark::Document, data.take(n), data.skip(n), block, low + 1);
    lemma_window_holds_extend(data.take(n), data.skip(n), block, low + 1, NSIS_MAGIC@);
    lemma_window_holds_extend(data.take(n), data.skip(n), block, low + 1, INNO_TAG@);
}

// ---------------------------------------------------------------------
// Laws
// ---------------------------------------------------------------------

/// How many bytes of a file of `len` bytes the scan looks at.
pub open spec fn visible_len(len: int, block: int) -> int {
    let end = (window_count(len, block) - 1) * block + block + OVERLAP;
    if end < len {
        end
    } else {
        len
    }
}

/// The part of the file that the scan looks at.
pub open spec fn visible(data: Seq<u8>, block: int) -> Seq<u8> {
    data.take(visible_len(data.len() as int, block))
}

/// Whether the cap on candidates costs the scan no candidate.
pub open spec fn loses_none(mark: Mark, data: Seq<u8>, block: int) -> bool {
    forall|o: u64|
        all_offsets(mark, visible(data, block), 0).contains(o) ==> #[trigger] kept(
            mark,
            data,
            block,
        ).contains(o)
}

proof fn lemma_offsets_contains(mark: Mark, buf: Seq<u8>, base: int, n: int, o: u64)
    requires
        0 <= base,
        base + n <= u64::MAX,
    ensures
        offsets(mark, buf, base, n).contains(o) <==> (base <= o < base + n && hit_at(
            mark,
            buf,
            base,
            o - base,
        )),
    decreases n,
{
    let all = offsets(mark, buf, base, n);
    if n > 0 {
        lemma_offsets_contains(mark, buf, base, n - 1, o);
        let prev = offsets(mark, buf, base, n - 1);
        if hit_at(mark, buf, base, n - 1) {
            lemma_push_contains(prev, (base + n - 1) as u64, o);
        }
    }
}

proof fn lemma_offsets_ascend(mark: Mark, buf: Seq<u8>, base: int, n: int)
    requires
        0 <= base,
        base + n <= u64::MAX,
    ensures
        ascending(offsets(mark, buf, base, n)),
    decreases n,
{
    if n > 0 {
        lemma_offsets_ascend(mark, buf, base, n - 1);
        let prev = offsets(mark, buf, base, n - 1);
        if hit_at(mark, buf, base, n - 1) {
            let all = offsets(mark, buf, base, n);
            assert forall|i: int, j: int| 0 <= i < j < all.len() implies all[i] < all[j] by {
                if j == prev.len() {
                    assert(prev.contains(prev[i]));
                    lemma_offsets_contains(mark, buf, base, n - 1, prev[i]);
                }
            }
        }
    }
}

/// Two ascending lists with the same items are the same list.
proof fn lemma_ascending_unique(a: Seq<u64>, b: Seq<u64>)
    requires
        ascending(a),
        ascending(b),
        forall|x: u64| a.contains(x) <==> b.contains(x),
    ensures
        a == b,
    decreases a.len(),
{
    if a.len() == 0 {
        if b.len() > 0 {
            assert(b.contains(b[0]));
            assert(a.contains(b[0]));
        }
        assert(a == b);
    } else {
        assert(a.contains(a.last()));
        assert(b.contains(a.last()));
        let j = choose|j: int| 0 <= j < b.len() && b[j] == a.last();
        assert(b.contains(b.last()));
        assert(a.contains(b.last()));
        let i = choose|i: int| 0 <= i < a.len() && a[i] == b.last();
        assert(a.last() == b.last()) by {
            assert(i < a.len() - 1 ==> a[i] < a[a.len() - 1]);
            assert(j < b.len() - 1 ==> b[j] < b[b.len() - 1]);
        }
        let c = a.drop_last();
        let d = b.drop_last();
        assert forall|x: u64| c.contains(x) <==> d.contains(x) by {
            if c.contains(x) {
                let p = choose|p: int| 0 <= p < c.len() && c[p] == x;
                assert(a[p] == x && a[p] < a[a.len() - 1]);
                assert(a.contains(x));
                assert(b.contains(x));
                let q = choose|q: int| 0 <= q < b.len() && b[q] == x;
                assert(d[q] == x);
            }
            if d.contains(x) {
                let p = choose|p: int| 0 <= p < d.len() && d[p] == x;
                assert(b[p] == x && b[p] < b[b.len() - 1]);
                assert(b.contains(x));
                assert(a.contains(x));
                let q = choose|q: int| 0 <= q < a.len() && a[q] == x;
                assert(c[q] == x);
            }
        }
        lemma_ascending_unique(c, d);
        assert(a == c.push(a.last()));
        assert(b == d.push(b.last()));
    }
}

/// The items in ascending order, each once.
pub open spec fn in_order(items: Seq<u64>) -> Seq<u64> {
    choose|s: Seq<u64>| is_ordered_set(s, items)
}

/// Every list of items can be put in order.
pub proof fn lemma_in_order(items: Seq<u64>)
    ensures
        is_ordered_set(in_order(items), items),
{
    let s = lemma_ordered_set_exists(items);
    assert(is_ordered_set(s, items));
}

proof fn lemma_ordered_set_exists(items: Seq<u64>) -> (s: Seq<u64>)
    ensures
        is_ordered_set(s, items),
    decreases items.len(),
{
    if items.len() == 0 {
        Seq::empty()
    } else {
        let front = items.drop_last();
        let x = items.last();
        let s = lemma_ordered_set_exists(front);
        assert(items == front.push(x));
        let t = if s.contains(x) {
            s
        } else {
            s.insert(place_of(s, x), x)
        };
        if !s.contains(x) {
            lemma_place_of(s, x);
            let at = place_of(s, x);
            assert forall|j: int, k: int| 0 <= j < k < t.len() implies t[j] < t[k] by {
                if j < at {
                    assert(t[j] == s[j] && s[j] < x);
                } else if j > at {
                    assert(t[j] == s[j - 1]);
                }
                if k < at {
                    assert(t[k] == s[k]);
                } else if k > at {
                    assert(t[k] == s[k - 1] && x < s[k - 1]);
                }
            }
        }
        assert forall|y: u64| t.contains(y) <==> items.contains(y) by {
            lemma_push_contains(front, x, y);
            if !s.contains(x) {
                lemma_insert_contains(s, place_of(s, x), x, y);
            }
        }
        t
    }
}

/// How many items at the start of an ascending list are below `x`.
spec fn place_of(s: Seq<u64>, x: u64) -> int
    decreases s.len(),
{
    if s.len() == 0 || s.last() < x {
        s.len() as int
    } else {
        place_of(s.drop_last(), x)
    }
}

proof fn lemma_place_of(s: Seq<u64>, x: u64)
    requires
        ascending(s),
        !s.contains(x),
    ensures
        0 <= place_of(s, x) <= s.len(),
        forall|i: int| 0 <= i < place_of(s, x) ==> s[i] < x,
        forall|i: int| place_of(s, x) <= i < s.len() ==> x < s[i],
    decreases s.len(),
{
    if s.len() > 0 {
        let front = s.drop_last();
        if s.last() < x {
            assert forall|i: int| 0 <= i < s.len() implies s[i] < x by {
                assert(i < s.len() - 1 ==> s[i] < s[s.len() - 1]);
            }
        } else {
            assert(s[s.len() - 1] == s.last());
            assert(s.last() != x);
            if front.contains(x) {
                let i = choose|i: int| 0 <= i < front.len() && front[i] == x;
                assert(s[i] == x);
            }
            lemma_place_of(front, x);
            let at = place_of(s, x);
            assert forall|i: int| 0 <= i < at implies s[i] < x by {
                assert(s[i] == front[i]);
            }
            assert forall|i: int| at <= i < s.len() implies x < s[i] by {
                if i < front.len() {
                    assert(s[i] == front[i]);
                }
            }
        }
    }
}

/// The ordered set of some items is unique.
pub proof fn lemma_ordered_set_unique(a: Seq<u64>, b: Seq<u64>, items: Seq<u64>)
    requires
        is_ordered_set(a, items),
        is_ordered_set(b, items),
    ensures
        a == b,
{
    lemma_ascending_unique(a, b);
}

/// A hit in a part of the buffer is one in the buffer.
proof fn lemma_hit_widens(mark: Mark, buf: Seq<u8>, from: int, to: int, i: int)
    requires
        0 <= from <= to <= buf.len(),
        hit_at(mark, buf.subrange(from, to), from, i),
    ensures
        hit_at(mark, buf, 0, from + i),
{
    let part = buf.subrange(from, to);
    match mark {
        Mark::Image => {
            assert(le32(part, i + 0x3C) == le32(buf, from + i + 0x3C));
        },
        Mark::Document => {
            lemma_stands_widens(buf, from, to, i, OLE_MAGIC@);
        },
    }
}

/// A hit in the buffer is one in a part that starts before it and reaches
/// `OVERLAP` bytes beyond it, or to the end of the buffer.
proof fn lemma_hit_narrows(mark: Mark, buf: Seq<u8>, from: int, to: int, i: int)
    requires
        0 <= from <= to <= buf.len(),
        0 <= i,
        from + i + OVERLAP <= to || to == buf.len(),
        hit_at(mark, buf, 0, from + i),
    ensures
        hit_at(mark, buf.subrange(from, to), from, i),
{
    let part = buf.subrange(from, to);
    match mark {
        Mark::Image => {
            assert(le32(part, i + 0x3C) == le32(buf, from + i + 0x3C));
        },
        Mark::Document => {
            lemma_stands_narrows(buf, from, to, i, OLE_MAGIC@);
        },
    }
}

proof fn lemma_stands_widens(buf: Seq<u8>, from: int, to: int, i: int, pattern: Seq<u8>)
    requires
        0 <= from <= to <= buf.len(),
        stands_at(buf.subrange(from, to), i, pattern),
    ensures
        stands_at(buf, from + i, pattern),
{
    assert(buf.subrange(from + i, from + i + pattern.len()) == buf.subrange(from, to).subrange(
        i,
        i + pattern.len(),
    ));
}

proof fn lemma_stands_narrows(buf: Seq<u8>, from: int, to: int, i: int, pattern: Seq<u8>)
    requires
        0 <= from <= to <= buf.len(),
        0 <= i,
        pattern.len() <= OVERLAP,
        from + i + OVERLAP <= to || to == buf.len(),
        stands_at(buf, from + i, pattern),
    ensures
        stands_at(buf.subrange(from, to), i, pattern),
{
    assert(buf.subrange(from + i, from + i + pattern.len()) == buf.subrange(from, to).subrange(
        i,
        i + pattern.len(),
    ));
}

/// The windows as parts of the visible bytes.
proof fn lemma_window_in_visible(data: Seq<u8>, block: int, k: int)
    requires
        OVERLAP <= block,
        0 <= k < window_count(data.len() as int, block),
    ensures
        ({
            let v = visible(data, block);
            let end = if k * block + block + OVERLAP < v.len() {
                k * block + block + OVERLAP
            } else {
                v.len() as int
            };
            &&& 0 <= k * block <= end <= v.len()
            &&& window(data, block, k) == v.subrange(k * block, end)
        }),
{
    let len = data.len() as int;
    let n = window_count(len, block);
    let last = (n - 1) * block;
    assert(0 <= k * block && (k < n - 1 ==> k * block + block <= last)) by (nonlinear_arith)
        requires
            0 <= k <= n - 1,
            block > 0,
            last == (n - 1) * block,
    ;
    lemma_last_window_starts_inside(len, block);
    let v = visible(data, block);
    let end = if k * block + block + OVERLAP < v.len() {
        k * block + block + OVERLAP
    } else {
        v.len() as int
    };
    assert(window(data, block, k) == v.subrange(k * block, end));
}

proof fn lemma_last_window_starts_inside(len: int, block: int)
    requires
        OVERLAP <= block,
        len >= 0,
    ensures
        window_count(len, block) >= 1,
        0 <= (window_count(len, block) - 1) * block <= len,
{
    let n = window_count(len, block);
    let full = full_windows(len, block);
    let low = low_windows(block);
    let x = len - OVERLAP;
    let y = MAX_SCAN_BYTES + block - 1;
    assert(low >= 0) by (nonlinear_arith)
        requires
            low == y / block,
            y == MAX_SCAN_BYTES + block - 1,
            block > 0,
    ;
    if x >= 0 {
        assert(full >= 0 && full * block <= x) by (nonlinear_arith)
            requires
                full == x / block,
                x >= 0,
                block > 0,
        ;
    } else {
        assert(full * block == 0);
    }
    assert(0 <= (n - 1) * block <= full * block) by (nonlinear_arith)
        requires
            0 <= n - 1 <= full,
            block > 0,
    ;
}

/// A window that shows position `p` of the visible bytes with what follows.
spec fn window_of(p: int, block: int, n: int) -> int {
    if p / block < n {
        p / block
    } else {
        n - 1
    }
}

proof fn lemma_window_of(data: Seq<u8>, block: int, p: int)
    requires
        OVERLAP <= block,
        0 <= p < visible(data, block).len(),
    ensures
        ({
            let n = window_count(data.len() as int, block);
            let k = window_of(p, block, n);
            let v = visible(data, block);
            &&& 0 <= k < n
            &&& k * block <= p
            &&& p + OVERLAP <= k * block + block + OVERLAP || v.len() <= k * block + block
                + OVERLAP
        }),
{
    let len = data.len() as int;
    let n = window_count(len, block);
    let k = window_of(p, block, n);
    lemma_last_window_starts_inside(len, block);
    let q = p / block;
    assert(0 <= q && q * block <= p < q * block + block) by (nonlinear_arith)
        requires
            q == p / block,
            p >= 0,
            block > 0,
    ;
    if q >= n {
        assert((n - 1) * block <= q * block) by (nonlinear_arith)
            requires
                n - 1 <= q,
                block > 0,
        ;
    }
}

proof fn lemma_window_offsets_contains(mark: Mark, data: Seq<u8>, block: int, n: int, o: u64)
    ensures
        window_offsets(mark, data, block, n).contains(o) <==> exists|k: int|
            0 <= k < n && (#[trigger] all_offsets(mark, window(data, block, k), k * block)).contains(
                o,
            ),
    decreases n,
{
    let all = window_offsets(mark, data, block, n);
    if n > 0 {
        let a = window_offsets(mark, data, block, n - 1);
        let b = all_offsets(mark, window(data, block, n - 1), (n - 1) * block);
        lemma_window_offsets_contains(mark, data, block, n - 1, o);
        if all.contains(o) {
            let i = choose|i: int| 0 <= i < all.len() && all[i] == o;
            if i < a.len() {
                assert(a[i] == o);
            } else {
                assert(b[i - a.len()] == o);
                assert(0 <= n - 1 < n && b.contains(o));
            }
        }
        if a.contains(o) {
            let i = choose|i: int| 0 <= i < a.len() && a[i] == o;
            assert(all[i] == o);
        }
        if b.contains(o) {
            let i = choose|i: int| 0 <= i < b.len() && b[i] == o;
            assert(all[a.len() + i] == o);
        }
    }
}

/// Through its windows the scan meets exactly the candidates that stand in
/// the visible part of the file: none is missed at a block boundary, and none
/// is made up.
pub proof fn law_windows_miss_nothing(mark: Mark, data: Seq<u8>, block: int, o: u64)
    requires
        OVERLAP <= block,
        data.len() <= u64::MAX,
    ensures
        window_offsets(
            mark,
            data,
            block,
            window_count(data.len() as int, block),
        ).contains(o) <==> all_offsets(mark, visible(data, block), 0).contains(o),
{
    let len = data.len() as int;
    let n = window_count(len, block);
    let v = visible(data, block);
    lemma_last_window_starts_inside(len, block);
    lemma_window_offsets_contains(mark, data, block, n, o);
    lemma_offsets_contains(mark, v, 0, v.len() as int, o);
    if window_offsets(mark, data, block, n).contains(o) {
        let k = choose|k: int|
            0 <= k < n && (#[trigger] all_offsets(mark, window(data, block, k), k * block)).contains(
                o,
            );
        lemma_window_in_visible(data, block, k);
        let w = window(data, block, k);
        lemma_offsets_contains(mark, w, k * block, w.len() as int, o);
        lemma_hit_widens(mark, v, k * block, k * block + w.len(), o - k * block);
    }
    if all_offsets(mark, v, 0).contains(o) {
        let k = window_of(o as int, block, n);
        lemma_window_of(data, block, o as int);
        lemma_window_in_visible(data, block, k);
        let w = window(data, block, k);
        lemma_hit_narrows(mark, v, k * block, k * block + w.len(), o - k * block);
        lemma_offsets_contains(mark, w, k * block, w.len() as int, o);
        assert(0 <= k < n && all_offsets(mark, w, k * block).contains(o));
    }
}

/// An installer mark is seen exactly where it stands in the visible part of
/// the file.
pub proof fn law_windows_show_marks(data: Seq<u8>, block: int, pattern: Seq<u8>)
    requires
        OVERLAP <= block,
        0 < pattern.len() <= OVERLAP,
    ensures
        window_holds(data, block, window_count(data.len() as int, block), pattern) <==> holds(
            visible(data, block),
            pattern,
        ),
{
    let len = data.len() as int;
    let n = window_count(len, block);
    let v = visible(data, block);
    if window_holds(data, block, n, pattern) {
        let k = choose|k: int| 0 <= k < n && holds(#[trigger] window(data, block, k), pattern);
        lemma_window_in_visible(data, block, k);
        let w = window(data, block, k);
        let i = choose|i: int| #[trigger] stands_at(w, i, pattern);
        lemma_stands_widens(v, k * block, k * block + w.len(), i, pattern);
        assert(stands_at(v, k * block + i, pattern));
    }
    if holds(v, pattern) {
        let p = choose|p: int| #[trigger] stands_at(v, p, pattern);
        let k = window_of(p, block, n);
        lemma_window_of(data, block, p);
        lemma_window_in_visible(data, block, k);
        let w = window(data, block, k);
        lemma_stands_narrows(v, k * block, k * block + w.len(), p - k * block, pattern);
        assert(stands_at(w, p - k * block, pattern));
        assert(0 <= k < n && holds(window(data, block, k), pattern));
    }
}

proof fn lemma_kept_is_met(mark: Mark, data: Seq<u8>, block: int, o: u64)
    requires
        kept(mark, data, block).contains(o),
    ensures
        window_offsets(
            mark,
            data,
            block,
            window_count(data.len() as int, block),
        ).contains(o),
{
    let all = window_offsets(mark, data, block, window_count(data.len() as int, block));
    let k = kept(mark, data, block);
    let i = choose|i: int| 0 <= i < k.len() && k[i] == o;
    assert(k[i] == all[i]);
}

/// A scan that loses no candidate to the cap lists every candidate of the
/// visible part of the file, in order, and reports the marks that stand there.
pub proof fn law_scan_is_complete(scan: Scan, data: Seq<u8>, block: int)
    requires
        OVERLAP <= block,
        data.len() <= u64::MAX,
        reports(scan, data, block),
    ensures
        loses_none(Mark::Image, data, block) ==> scan.mz_candidates@ == all_offsets(
            Mark::Image,
            visible(data, block),
            0,
        ),
        loses_none(Mark::Document, data, block) ==> scan.ole_candidates@ == all_offsets(
            Mark::Document,
            visible(data, block),
            0,
        ),
        scan.is_nsis == holds(visible(data, block), NSIS_MAGIC@),
        scan.is_inno == holds(visible(data, block), INNO_TAG@),
{
    lemma_list_is_complete(Mark::Image, scan.mz_candidates@, data, block);
    lemma_list_is_complete(Mark::Document, scan.ole_candidates@, data, block);
    law_windows_show_marks(data, block, NSIS_MAGIC@);
    law_windows_show_marks(data, block, INNO_TAG@);
}

/// A list of what a scan keeps is complete where nothing is lost.
pub proof fn lemma_list_is_complete(mark: Mark, list: Seq<u64>, data: Seq<u8>, block: int)
    requires
        OVERLAP <= block,
        data.len() <= u64::MAX,
        is_ordered_set(list, kept(mark, data, block)),
    ensures
        loses_none(mark, data, block) ==> list == all_offsets(mark, visible(data, block), 0),
{
    let v = visible(data, block);
    let all = all_offsets(mark, v, 0);
    lemma_last_window_starts_inside(data.len() as int, block);
    lemma_offsets_ascend(mark, v, 0, v.len() as int);
    if loses_none(mark, data, block) {
        assert forall|o: u64| list.contains(o) <==> all.contains(o) by {
            if list.contains(o) {
                assert(kept(mark, data, block).contains(o));
                lemma_kept_is_met(mark, data, block, o);
                law_windows_miss_nothing(mark, data, block, o);
            }
            if all.contains(o) {
                assert(kept(mark, data, block).contains(o));
            }
        }
        lemma_ascending_unique(list, all);
    }
}

/// The cap costs nothing as long as the windows together show no more hits
/// than it allows.
pub proof fn law_few_hits_are_all_kept(mark: Mark, data: Seq<u8>, block: int)
    requires
        OVERLAP <= block,
        data.len() <= u64::MAX,
        window_offsets(mark, data, block, window_count(data.len() as int, block)).len()
            <= MAX_CANDIDATES,
    ensures
        loses_none(mark, data, block),
{
    let all = window_offsets(mark, data, block, window_count(data.len() as int, block));
    assert(Seq::<u64>::empty() + all == all);
    assert forall|o: u64|
        all_offsets(mark, visible(data, block), 0).contains(o) implies #[trigger] kept(
        mark,
        data,
        block,
    ).contains(o) by {
        law_windows_miss_nothing(mark, data, block, o);
    }
}

/// How many hits stand in front of a position of a buffer that is the start of
/// the file.
spec fn hits_before(mark: Mark, buf: Seq<u8>, at: int) -> int {
    offsets(
        mark,
        buf,
        0,
        if at < buf.len() {
            at
        } else {
            buf.len() as int
        },
    ).len() as int
}

proof fn lemma_hits_grow(mark: Mark, buf: Seq<u8>, from: int, to: int)
    requires
        from <= to,
    ensures
        offsets(mark, buf, 0, from).len() <= offsets(mark, buf, 0, to).len(),
    decreases to - from,
{
    if from < to {
        lemma_hits_grow(mark, buf, from, to - 1);
    }
}

/// A part of a buffer shows no more hits than the buffer has there.
proof fn lemma_hits_in_part(mark: Mark, buf: Seq<u8>, from: int, to: int, n: int)
    requires
        0 <= from <= to <= buf.len(),
        0 <= n <= to - from,
    ensures
        offsets(mark, buf, 0, from).len() + offsets(mark, buf.subrange(from, to), from, n).len()
            <= offsets(mark, buf, 0, from + n).len(),
    decreases n,
{
    if n > 0 {
        lemma_hits_in_part(mark, buf, from, to, n - 1);
        if hit_at(mark, buf.subrange(from, to), from, n - 1) {
            lemma_hit_widens(mark, buf, from, to, n - 1);
        }
    }
}

/// Every hit is in at most two windows.
proof fn lemma_windows_show_twice(mark: Mark, data: Seq<u8>, block: int, n: int)
    requires
        OVERLAP <= block,
        0 <= n <= window_count(data.len() as int, block),
    ensures
        window_offsets(mark, data, block, n).len() <= hits_before(
            mark,
            visible(data, block),
            n * block,
        ) + hits_before(mark, visible(data, block), n * block + OVERLAP),
    decreases n,
{
    let v = visible(data, block);
    if n > 0 {
        lemma_windows_show_twice(mark, data, block, n - 1);
        let from = (n - 1) * block;
        assert(n * block == from + block) by (nonlinear_arith)
            requires
                from == (n - 1) * block,
        ;
        lemma_window_in_visible(data, block, n - 1);
        let w = window(data, block, n - 1);
        let to = from + w.len();
        lemma_hits_in_part(mark, v, from, to, w.len() as int);
        // The shared stretch in front of this window ends before the one behind it.
        let near = if from + OVERLAP < v.len() {
            from + OVERLAP
        } else {
            v.len() as int
        };
        let next = if n * block < v.len() {
            n * block
        } else {
            v.len() as int
        };
        lemma_hits_grow(mark, v, near, next);
    }
}

/// The cap costs nothing as long as the visible part of the file holds no
/// more candidates than half of it, since every candidate is met at most
/// twice.
pub proof fn law_few_candidates_are_all_kept(mark: Mark, data: Seq<u8>, block: int)
    requires
        OVERLAP <= block,
        data.len() <= u64::MAX,
        2 * all_offsets(mark, visible(data, block), 0).len() <= MAX_CANDIDATES,
    ensures
        loses_none(mark, data, block),
{
    let v = visible(data, block);
    let n = window_count(data.len() as int, block);
    lemma_last_window_starts_inside(data.len() as int, block);
    lemma_windows_show_twice(mark, data, block, n);
    let a = if n * block < v.len() {
        n * block
    } else {
        v.len() as int
    };
    let b = if n * block + OVERLAP < v.len() {
        n * block + OVERLAP
    } else {
        v.len() as int
    };
    lemma_hits_grow(mark, v, a, v.len() as int);
    lemma_hits_grow(mark, v, b, v.len() as int);
    law_few_hits_are_all_kept(mark, data, block);
}

/// A scan of a file without end stops: it takes more than 512 MiB, but less
/// than two blocks and the shared stretch of 128 bytes beyond.
pub proof fn law_scans_are_bounded(block: int)
    requires
        OVERLAP <= block,
    ensures
        536870912 + 128 < scan_limit(block) < 536870912 + 2 * block + 128,
{
    let low = low_windows(block);
    let y = MAX_SCAN_BYTES + block - 1;
    assert(y - block < low * block <= y) by (nonlinear_arith)
        requires
            low == y / block,
            y >= 0,
            block > 0,
    ;
}

/// The candidates of a scan stand in ascending order, each once, and there
/// are never more of a kind than the cap allows.
pub proof fn law_candidates_are_ordered_and_capped(scan: Scan, data: Seq<u8>, block: int)
    requires
        reports(scan, data, block),
    ensures
        ascending(scan.mz_candidates@),
        ascending(scan.ole_candidates@),
        scan.mz_candidates@.len() <= MAX_CANDIDATES,
        scan.ole_candidates@.len() <= MAX_CANDIDATES,
{
    lemma_ordered_set_is_no_longer(scan.mz_candidates@, kept(Mark::Image, data, block));
    lemma_ordered_set_is_no_longer(scan.ole_candidates@, kept(Mark::Document, data, block));
}

proof fn lemma_ordered_set_is_no_longer(s: Seq<u64>, items: Seq<u64>)
    requires
        is_ordered_set(s, items),
    ensures
        s.len() <= items.len(),
{
    assert(s.no_duplicates()) by {
        assert forall|i: int, j: int| 0 <= i < s.len() && 0 <= j < s.len() && i != j implies s[i]
            != s[j] by {
            if i < j {
                assert(s[i] < s[j]);
            } else {
                assert(s[j] < s[i]);
            }
        }
    }
    s.unique_seq_to_set();
    items.lemma_cardinality_of_set();
    assert forall|x: u64| s.to_set().contains(x) implies items.to_set().contains(x) by {
        assert(s.contains(x));
        assert(items.contains(x));
    }
    lemma_len_subset(s.to_set(), items.to_set());
}

/// A file that ends before the scan limit is looked at to its end, whatever
/// the block size.
pub proof fn law_short_files_are_seen_whole(len: int, block: int)
    requires
        OVERLAP <= block,
        0 <= len <= MAX_SCAN_BYTES + block + OVERLAP,
    ensures
        visible_len(len, block) == len,
{
    let n = window_count(len, block);
    let full = full_windows(len, block);
    let low = low_windows(block);
    let x = len - OVERLAP;
    let y = MAX_SCAN_BYTES + block - 1;
    assert(low >= 0 && low * block >= MAX_SCAN_BYTES) by (nonlinear_arith)
        requires
            low == y / block,
            y == MAX_SCAN_BYTES + block - 1,
            block > 0,
    ;
    if full < low {
        if x >= 0 {
            assert(x < full * block + block) by (nonlinear_arith)
                requires
                    full == x / block,
                    x >= 0,
                    block > 0,
            ;
        } else {
            assert(full * block == 0);
        }
    }
}

/// Two scans of one file in different blocks agree, if both look at the same
/// part of the file and the cap costs neither of them a candidate.
pub proof fn law_scans_without_loss_agree(
    a: Scan,
    b: Scan,
    data: Seq<u8>,
    block_a: int,
    block_b: int,
)
    requires
        OVERLAP <= block_a,
        OVERLAP <= block_b,
        data.len() <= u64::MAX,
        reports(a, data, block_a),
        reports(b, data, block_b),
        visible_len(data.len() as int, block_a) == visible_len(data.len() as int, block_b),
        loses_none(Mark::Image, data, block_a),
        loses_none(Mark::Image, data, block_b),
        loses_none(Mark::Document, data, block_a),
        loses_none(Mark::Document, data, block_b),
    ensures
        a.mz_candidates@ == b.mz_candidates@,
        a.ole_candidates@ == b.ole_candidates@,
        a.is_nsis == b.is_nsis,
        a.is_inno == b.is_inno,
{
    law_scan_is_complete(a, data, block_a);
    law_scan_is_complete(b, data, block_b);
}

/// The block size makes no difference to the result, however the bytes of the
/// file came in: two scans of one file agree, if the file ends before the scan
/// limit and holds, of either kind, no more candidates than half the cap.
/// Beyond that, in small blocks, the candidates that are met twice can push
/// others out.
pub proof fn law_block_size_makes_no_difference(
    a: Scan,
    b: Scan,
    data: Seq<u8>,
    block_a: int,
    block_b: int,
)
    requires
        OVERLAP <= block_a,
        OVERLAP <= block_b,
        reports(a, data, block_a),
        reports(b, data, block_b),
        data.len() <= u64::MAX,
        data.len() <= MAX_SCAN_BYTES + block_a + OVERLAP,
        data.len() <= MAX_SCAN_BYTES + block_b + OVERLAP,
        2 * all_offsets(Mark::Image, data, 0).len() <= MAX_CANDIDATES,
        2 * all_offsets(Mark::Document, data, 0).len() <= MAX_CANDIDATES,
    ensures
        a.mz_candidates@ == b.mz_candidates@,
        a.ole_candidates@ == b.ole_candidates@,
        a.is_nsis == b.is_nsis,
        a.is_inno == b.is_inno,
{
    law_short_files_are_seen_whole(data.len() as int, block_a);
    law_short_files_are_seen_whole(data.len() as int, block_b);
    assert(visible(data, block_a) == data);
    assert(visible(data, block_b) == data);
    law_few_candidates_are_all_kept(Mark::Image, data, block_a);
    law_few_candidates_are_all_kept(Mark::Image, data, block_b);
    law_few_candidates_are_all_kept(Mark::Document, data, block_a);
    law_few_candidates_are_all_kept(Mark::Document, data, block_b);
    law_scans_without_loss_agree(a, b, data, block_a, block_b);
}

/// Candidates are told by their bytes: an image by `MZ` behind the first 0x40
/// bytes of the file and by a plausible place of its header, and a document by
/// its eight first bytes.
pub proof fn law_candidates_are_told_by_their_bytes(data: Seq<u8>, o: u64)
    requires
        data.len() <= u64::MAX,
    ensures
        all_offsets(Mark::Image, data, 0).contains(o) <==> (0x40 <= o && o + 0x40 <= data.len()
            && data[o as int] == 0x4D && data[o + 1] == 0x5A && 0x40 <= data[o + 0x3C] + 256
            * data[o + 0x3D] + 65536 * data[o + 0x3E] + 16777216 * data[o + 0x3F] <= 0x1000),
        all_offsets(Mark::Document, data, 0).contains(o) <==> (o + 8 <= data.len() && data[o as int]
            == 0xD0 && data[o + 1] == 0xCF && data[o + 2] == 0x11 && data[o + 3] == 0xE0 && data[o
            + 4] == 0xA1 && data[o + 5] == 0xB1 && data[o + 6] == 0x1A && data[o + 7] == 0xE1),
{
    lemma_offsets_contains(Mark::Image, data, 0, data.len() as int, o);
    lemma_offsets_contains(Mark::Document, data, 0, data.len() as int, o);
    law_patterns_stand_where_their_bytes_are(data, o as int, OLE_MAGIC@);
    if stands_at(data, o as int, OLE_MAGIC@) {
        assert(OLE_MAGIC@[0] == 0xD0 && OLE_MAGIC@[1] == 0xCF && OLE_MAGIC@[2] == 0x11
            && OLE_MAGIC@[3] == 0xE0 && OLE_MAGIC@[4] == 0xA1 && OLE_MAGIC@[5] == 0xB1
            && OLE_MAGIC@[6] == 0x1A && OLE_MAGIC@[7] == 0xE1);
    }
}

/// The marks of installers are told by their bytes: `NullsoftInst` behind the
/// number 0xDEADBEEF, and `Inno Setup Setup Data`.
pub proof fn law_marks_are_told_by_their_bytes(data: Seq<u8>)
    ensures
        holds(data, NSIS_MAGIC@) <==> exists|i: int|
            0 <= i && i + 16 <= data.len() && #[trigger] data.subrange(i, i + 16) == seq![
                0xEFu8,
                0xBE,
                0xAD,
                0xDE,
                78,
                117,
                108,
                108,
                115,
                111,
                102,
                116,
                73,
                110,
                115,
                116,
            ],
        holds(data, INNO_TAG@) <==> exists|i: int|
            0 <= i && i + 21 <= data.len() && #[trigger] data.subrange(i, i + 21) == seq![
                73u8,
                110,
                110,
                111,
                32,
                83,
                101,
                116,
                117,
                112,
                32,
                83,
                101,
                116,
                117,
                112,
                32,
                68,
                97,
                116,
                97,
            ],
{
    let nsis = seq![
        0xEFu8,
        0xBE,
        0xAD,
        0xDE,
        78,
        117,
        108,
        108,
        115,
        111,
        102,
        116,
        73,
        110,
        115,
        116,
    ];
    let inno = seq![
        73u8,
        110,
        110,
        111,
        32,
        83,
        101,
        116,
        117,
        112,
        32,
        83,
        101,
        116,
        117,
        112,
        32,
        68,
        97,
        116,
        97,
    ];
    assert(NSIS_MAGIC@ =~= nsis);
    assert(INNO_TAG@ =~= inno);
    if holds(data, NSIS_MAGIC@) {
        let i = choose|i: int| #[trigger] stands_at(data, i, NSIS_MAGIC@);
        assert(data.subrange(i, i + 16) == nsis);
    }
    if exists|i: int|
        0 <= i && i + 16 <= data.len() && #[trigger] data.subrange(i, i + 16) == nsis {
        let i = choose|i: int|
            0 <= i && i + 16 <= data.len() && #[trigger] data.subrange(i, i + 16) == nsis;
        assert(stands_at(data, i, NSIS_MAGIC@));
    }
    if holds(data, INNO_TAG@) {
        let i = choose|i: int| #[trigger] stands_at(data, i, INNO_TAG@);
        assert(data.subrange(i, i + 21) == inno);
    }
    if exists|i: int|
        0 <= i && i + 21 <= data.len() && #[trigger] data.subrange(i, i + 21) == inno {
        let i = choose|i: int|
            0 <= i && i + 21 <= data.len() && #[trigger] data.subrange(i, i + 21) == inno;
        assert(stands_at(data, i, INNO_TAG@));
    }
}

/// A scan of a file of up to 512 MiB with up to 4096 candidates of either kind
/// lists them all and nothing else, and reports the marks that the file
/// holds, whatever the block size.
pub proof fn law_ordinary_files_are_scanned_whole(scan: Scan, data: Seq<u8>, block: int)
    requires
        128 <= block,
        reports(scan, data, block),
        data.len() <= 536870912,
        all_offsets(Mark::Image, data, 0).len() <= 4096,
        all_offsets(Mark::Document, data, 0).len() <= 4096,
    ensures
        scan.mz_candidates@ == all_offsets(Mark::Image, data, 0),
        scan.ole_candidates@ == all_offsets(Mark::Document, data, 0),
        scan.is_nsis == holds(data, NSIS_MAGIC@),
        scan.is_inno == holds(data, INNO_TAG@),
{
    law_short_files_are_seen_whole(data.len() as int, block);
    assert(visible(data, block) == data);
    law_few_candidates_are_all_kept(Mark::Image, data, block);
    law_few_candidates_are_all_kept(Mark::Document, data, block);
    law_scan_is_complete(scan, data, block);
}

/// The candidates of a file stand in ascending order, each once.
pub proof fn law_candidates_ascend(mark: Mark, data: Seq<u8>)
    requires
        data.len() <= u64::MAX,
    ensures
        ascending(all_offsets(mark, data, 0)),
{
    lemma_offsets_ascend(mark, data, 0, data.len() as int);
}

/// Of more hits than the cap of 8192 allows, the first ones are kept.
pub proof fn law_the_first_hits_are_kept(mark: Mark, data: Seq<u8>, block: int)
    ensures
        ({
            let hits = window_offsets(
                mark,
                data,
                block,
                window_count(data.len() as int, block),
            );
            &&& hits.len() <= 8192 ==> kept(mark, data, block) == hits
            &&& hits.len() > 8192 ==> kept(mark, data, block) == hits.take(8192)
        }),
{
    let hits = window_offsets(mark, data, block, window_count(data.len() as int, block));
    assert(Seq::<u64>::empty() + hits == hits);
    if hits.len() > 8192 {
        assert(Seq::<u64>::empty() + hits.take(8192) == hits.take(8192));
    }
}

/// Of more candidates than the cap of 8192 allows, the first ones are kept: a
/// file that fits into one window keeps as many as it may from its start.
pub proof fn law_the_cap_keeps_the_first(mark: Mark, data: Seq<u8>, block: int)
    requires
        128 <= block,
        data.len() < block + 128,
    ensures
        all_offsets(mark, data, 0).len() <= 8192 ==> kept(mark, data, block) == all_offsets(
            mark,
            data,
            0,
        ),
        all_offsets(mark, data, 0).len() > 8192 ==> kept(mark, data, block) == all_offsets(
            mark,
            data,
            0,
        ).take(8192),
{
    let len = data.len() as int;
    assert(0 * block == 0);
    lemma_window_count(len, block, 0);
    assert(window(data, block, 0) == data);
    let all = all_offsets(mark, data, 0);
    reveal_with_fuel(window_offsets, 2);
    assert(window_offsets(mark, data, block, 1) == all);
    assert(Seq::<u64>::empty() + all == all);
    if all.len() > 8192 {
        assert(Seq::<u64>::empty() + all.take(8192) == all.take(8192));
    }
}

} // verus!
