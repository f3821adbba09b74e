//! Ranges of flash, their cutting into erase sectors and page windows, and
//! the bulk operations over them: erase, program, verify and dump.

use vstd::prelude::*;
use vstd::slice::slice_subrange;
use crate::cmds::PAGE_SIZE;
use crate::dev::{read_refusal, Attempt, Dumpable, FlashOp, PageRead, Programmable};
use crate::err::{lemma_ok_is_unit, Error};

verus! {

/// Bytes in one erase sector.
pub const SECTOR_SIZE: usize = 0x1_0000;

/// One contiguous region of the flash: `len` bytes from `start` on.
#[derive(Copy, Clone, Debug)]
pub struct Range {
    pub start: usize,
    pub len: usize,
}

impl Range {
    /// The range of `len` bytes that begins at `start`.
    pub fn new(start: usize, len: usize) -> (range: Self)
        ensures
            range.start == start,
            range.len == len,
    {
        Self { start, len }
    }

    /// The first address behind the range.
    pub open spec fn end(&self) -> int {
        self.start + self.len
    }

    /// Whether `addr` lies in the range.
    pub open spec fn contains(&self, addr: int) -> bool {
        self.start <= addr < self.end()
    }

    /// Index of the sector in which the range begins.
    pub open spec fn first_sector(&self) -> int {
        self.start as int / SECTOR_SIZE as int
    }

    /// Index of the sector that holds the range's end address.
    pub open spec fn last_sector(&self) -> int {
        self.end() / SECTOR_SIZE as int
    }

    /// Whether both sector indices fit in the one byte that the wire has for
    /// them.
    pub open spec fn sectors_fit(&self) -> bool {
        self.first_sector() <= u8::MAX && self.last_sector() <= u8::MAX
    }

    /// The sectors to erase, in rising order: from the one in which the range
    /// begins up to and including the one that holds its end address.
    pub open spec fn spec_sectors(&self) -> Seq<u8> {
        Seq::new(
            (self.last_sector() - self.first_sector() + 1) as nat,
            |i: int| (self.first_sector() + i) as u8,
        )
    }

    /// The sectors to erase, or the conversion error if an index does not fit
    /// in a byte.
    pub fn sectors(&self) -> (r: Result<Vec<u8>, Error>)
        requires
            self.end() <= usize::MAX,
        ensures
            self.sectors_fit() ==> r is Ok && r->Ok_0@ == self.spec_sectors(),
            !self.sectors_fit() ==> r is Err && r->Err_0 is FromInt,
    {
        let start_sector: u8 = match u8::try_from(self.start / SECTOR_SIZE) {
            Ok(sector) => sector,
            Err(e) => {
                return Err(Error::FromInt(e));
            },
        };
        let end_sector: u8 = match u8::try_from((self.start + self.len) / SECTOR_SIZE) {
            Ok(sector) => sector,
            Err(e) => {
                return Err(Error::FromInt(e));
            },
        };
        let mut sectors: Vec<u8> = Vec::new();
        let mut sector: u8 = start_sector;
        sectors.push(sector);
        while sector < end_sector
            invariant
                start_sector <= sector <= end_sector,
                start_sector == self.first_sector(),
                end_sector == self.last_sector(),
                sectors@.len() == sector - start_sector + 1,
                forall|i: int| 0 <= i < sectors@.len() ==> sectors@[i] == start_sector + i,
            decreases end_sector - sector,
        {
            sector += 1;
            sectors.push(sector);
        }
        proof {
            assert(sectors@ =~= self.spec_sectors());
        }
        Ok(sectors)
    }

    /// How many windows of `size` bytes it takes to cover the range.
    pub open spec fn page_count(&self, size: usize) -> int {
        1 + (self.len - 1) / size as int
    }

    /// The `k`-th window of `size` bytes: it begins `k` windows behind the
    /// range's start and ends with the window or with the range, whichever
    /// comes first.
    pub open spec fn spec_page(&self, size: usize, k: int) -> Range {
        let start = self.start + k * size;
        Range {
            start: start as usize,
            len: if self.end() - start < size {
                (self.end() - start) as usize
            } else {
                size
            },
        }
    }

    /// Index of the window that `addr` falls into: its distance from the
    /// range's start, in whole windows.
    pub open spec fn page_index(&self, size: usize, addr: int) -> int {
        (addr - self.start) / (size as int)
    }

    /// The windows of `size` bytes that cover the range, in rising order.
    pub open spec fn spec_pages(&self, size: usize) -> Seq<Range> {
        Seq::new(self.page_count(size) as nat, |k: int| self.spec_page(size, k))
    }

    /// The number of windows of `N` bytes that cover the range.
    pub fn count_pages<const N: usize>(&self) -> (count: usize)
        requires
            N > 0,
            self.len > 0,
        ensures
            count == self.page_count(N),
            count >= 1,
    {
        1 + (self.len - 1) / N
    }

    /// The `k`-th window of `N` bytes.
    pub fn page<const N: usize>(&self, k: usize) -> (window: Range)
        requires
            N > 0,
            self.len > 0,
            self.end() <= usize::MAX,
            k < self.page_count(N),
        ensures
            window == self.spec_page(N, k as int),
    {
        proof {
            lemma_page_bounds(*self, N, k as int);
        }
        let start: usize = self.start + k * N;
        let rest: usize = self.start + self.len - start;
        Range::new(
            start,
            if rest < N {
                rest
            } else {
                N
            },
        )
    }

    /// The windows of `N` bytes that cover the range, in rising order.
    pub fn pages<const N: usize>(&self) -> (windows: Vec<Range>)
        requires
            N > 0,
            self.len > 0,
            self.end() <= usize::MAX,
        ensures
            windows@ == self.spec_pages(N),
    {
        let count = self.count_pages::<N>();
        let mut windows: Vec<Range> = Vec::new();
        let mut k: usize = 0;
        while k < count
            invariant
                N > 0,
                self.len > 0,
                self.end() <= usize::MAX,
                count == self.page_count(N),
                k <= count,
                windows@.len() == k,
                forall|i: int| 0 <= i < k ==> windows@[i] == self.spec_page(N, i),
            decreases count - k,
        {
            windows.push(self.page::<N>(k));
            k += 1;
        }
        proof {
            assert(windows@ =~= self.spec_pages(N));
        }
        windows
    }
}

/// A sector's index is its address shifted right by sixteen bits.
pub proof fn lemma_sector_is_shift(range: Range)
    requires
        range.end() <= usize::MAX,
    ensures
        range.first_sector() == range.start >> 16,
        range.last_sector() == ((range.start + range.len) as usize) >> 16,
        range.first_sector() <= range.last_sector(),
{
    let start = range.start;
    let end = (range.start + range.len) as usize;
    assert(start >> 16 == start / 0x1_0000) by (bit_vector);
    assert(end >> 16 == end / 0x1_0000) by (bit_vector);
}

/// Window `k` of a range begins inside the range, `k` whole windows behind
/// its start, and is not empty.
pub proof fn lemma_page_bounds(range: Range, size: usize, k: int)
    requires
        size > 0,
        range.len > 0,
        range.end() <= usize::MAX,
        0 <= k < range.page_count(size),
    ensures
        0 <= k * size <= range.len - 1,
        range.spec_page(size, k).start == range.start + k * size,
        0 < range.spec_page(size, k).len <= size,
        range.spec_page(size, k).end() <= range.end(),
{
    let n = size as int;
    let last = (range.len - 1) / n;
    assert(k * n <= last * n) by (nonlinear_arith)
        requires
            0 <= k <= last,
            n > 0,
    ;
    assert(last * n <= range.len - 1) by (nonlinear_arith)
        requires
            last == (range.len - 1) / n,
            n > 0,
            range.len - 1 >= 0,
    ;
    assert(0 <= k * n) by (nonlinear_arith)
        requires
            0 <= k,
            n > 0,
    ;
}

/// Every window but the last is a whole one, and the next window begins
/// where it ends.
pub proof fn lemma_page_whole(range: Range, size: usize, k: int)
    requires
        size > 0,
        range.len > 0,
        range.end() <= usize::MAX,
        0 <= k < range.page_count(size) - 1,
    ensures
        range.spec_page(size, k).len == size,
        range.spec_page(size, k).end() == range.spec_page(size, k + 1).start,
{
    let n = size as int;
    let last = (range.len - 1) / n;
    lemma_page_bounds(range, size, k);
    lemma_page_bounds(range, size, k + 1);
    assert((k + 1) * n == k * n + n) by (nonlinear_arith);
}

/// The last window ends with the range, and holds what is left of the
/// range's length after whole windows: a whole window if nothing is left.
pub proof fn lemma_page_last(range: Range, size: usize)
    requires
        size > 0,
        range.len > 0,
        range.end() <= usize::MAX,
    ensures
        range.spec_page(size, range.page_count(size) - 1).end() == range.end(),
        range.spec_page(size, range.page_count(size) - 1).len == if range.len as int % size as int
            == 0 {
            size as int
        } else {
            range.len as int % size as int
        },
{
    let n = size as int;
    let len = range.len as int;
    let last = (len - 1) / n;
    lemma_page_bounds(range, size, last);
    assert(len - last * n == if len % n == 0 {
        n
    } else {
        len % n
    }) by (nonlinear_arith)
        requires
            n > 0,
            len > 0,
            last == (len - 1) / n,
    ;
}

/// The windows tile the range: every address of the range lies in the window
/// whose index is the address's distance from the start in whole windows, and
/// a window holds no address but these.
pub proof fn lemma_page_of_addr(range: Range, size: usize, addr: int)
    requires
        size > 0,
        range.len > 0,
        range.end() <= usize::MAX,
    ensures
        range.contains(addr) ==> 0 <= range.page_index(size, addr) < range.page_count(size)
            && range.spec_page(size, range.page_index(size, addr)).contains(addr),
        forall|k: int|
            0 <= k < range.page_count(size) && #[trigger] range.spec_page(size, k).contains(addr)
                ==> range.contains(addr) && k == range.page_index(size, addr),
{
    let n = size as int;
    let len = range.len as int;
    let off = addr - range.start;
    if range.contains(addr) {
        let k = off / n;
        assert(0 <= k <= (len - 1) / n && k * n <= off < k * n + n) by (nonlinear_arith)
            requires
                n > 0,
                0 <= off <= len - 1,
                k == off / n,
        ;
        lemma_page_bounds(range, size, k);
    }
    assert forall|k: int|
        0 <= k < range.page_count(size) && #[trigger] range.spec_page(size, k).contains(
            addr,
        ) implies range.contains(addr) && k == off / n by {
        lemma_page_bounds(range, size, k);
        assert(k == off / n) by (nonlinear_arith)
            requires
                n > 0,
                k * n <= off < k * n + n,
        ;
    }
}

/// The windows of a range cover it exactly once: the first begins at the
/// range's start, none is empty or longer than a window, each begins where
/// the one before it ends, and the last ends with the range and is as long as
/// the remainder of the range's length, or a whole window if there is none.
pub proof fn lemma_pages_cover(range: Range, size: usize)
    requires
        size > 0,
        range.len > 0,
        range.end() <= usize::MAX,
    ensures
        range.spec_pages(size).len() == 1 + (range.len - 1) / size as int,
        range.spec_pages(size)[0].start == range.start,
        forall|k: int|
            0 <= k < range.spec_pages(size).len() ==> 0 < (#[trigger] range.spec_pages(
                size,
            )[k]).len <= size,
        forall|k: int|
            0 <= k < range.spec_pages(size).len() - 1 ==> (#[trigger] range.spec_pages(
                size,
            )[k]).end() == range.spec_pages(size)[k + 1].start,
        range.spec_pages(size).last().end() == range.end(),
        range.spec_pages(size).last().len == if range.len as int % size as int == 0 {
            size as int
        } else {
            range.len as int % size as int
        },
        forall|addr: int| #[trigger]
            range.contains(addr) ==> range.spec_pages(size)[range.page_index(size, addr)]
                .contains(addr),
        forall|addr: int, k: int|
            0 <= k < range.spec_pages(size).len() && #[trigger] range.spec_pages(
                size,
            )[k].contains(addr) ==> range.contains(addr) && k == range.page_index(size, addr),
{
    let windows = range.spec_pages(size);
    lemma_page_bounds(range, size, 0);
    lemma_page_last(range, size);
    assert forall|k: int| 0 <= k < windows.len() implies 0 < (#[trigger] windows[k]).len
        <= size by {
        lemma_page_bounds(range, size, k);
    }
    assert forall|k: int| 0 <= k < windows.len() - 1 implies (#[trigger] windows[k]).end()
        == windows[k + 1].start by {
        lemma_page_whole(range, size, k);
    }
    assert forall|addr: int| #[trigger] range.contains(addr) implies windows[range.page_index(
        size,
        addr,
    )].contains(addr) by {
        lemma_page_of_addr(range, size, addr);
    }
    assert forall|addr: int, k: int|
        0 <= k < windows.len() && #[trigger] windows[k].contains(addr) implies range.contains(addr)
        && k == range.page_index(size, addr) by {
        lemma_page_of_addr(range, size, addr);
        assert(windows[k] == range.spec_page(size, k));
    }
}

/// Seconds that pass between two reports of progress, at the least.
pub const REPORT_PERIOD_SECS: u64 = 1;

/// The share of the work that is done, in whole percent, rounded down.
pub fn progress(done: usize, total: usize) -> (percent: usize)
    requires
        0 < total,
        done <= total,
    ensures
        percent == 100 * done / total as int,
        percent <= 100,
{
    proof {
        assert(100 * done / total as int <= 100) by (nonlinear_arith)
            requires
                0 < total,
                0 <= done <= total,
        ;
        assert(0 <= 100 * done / total as int) by (nonlinear_arith)
            requires
                0 < total,
                0 <= done,
        ;
    }
    ((100 * (done as u128)) / (total as u128)) as usize
}

/// Whether progress is reported after window `done` of `total`: when the
/// reporting period has passed since the last report, and always after the
/// last window.
pub fn report_due(elapsed_secs: u64, done: usize, total: usize) -> (due: bool)
    ensures
        due == (elapsed_secs >= REPORT_PERIOD_SECS || done == total),
{
    elapsed_secs >= REPORT_PERIOD_SECS || done == total
}

/// Someone who is told of progress. Nothing is assumed of an
/// implementation, and nothing it does bears on the work.
pub trait Monitor {
    /// Whole seconds since the last report was taken, or since the watch
    /// began if none was.
    fn elapsed_secs(&mut self) -> u64;

    /// Takes a report: the share of the work that is done, in percent.
    fn report(&mut self, percent: usize);
}

/// The monitor that looks at no clock and drops every report.
pub struct Silent;

impl Monitor for Silent {
    /// No time ever passes: by this monitor's clock a report is due on the
    /// last window only.
    fn elapsed_secs(&mut self) -> (secs: u64)
        ensures
            secs == 0,
    {
        0
    }

    fn report(&mut self, percent: usize) {
    }
}

/// A monitor together with the record of what it was told.
pub struct Watch<M: Monitor> {
    monitor: M,
    told: Ghost<Seq<usize>>,
}

impl<M: Monitor> Watch<M> {
    /// The monitor underneath.
    pub closed spec fn inner(&self) -> M {
        self.monitor
    }

    /// Every report that was made, oldest first.
    pub closed spec fn reports(&self) -> Seq<usize> {
        self.told@
    }

    /// Wraps `monitor`, with no report made yet.
    pub fn new(monitor: M) -> (watch: Self)
        ensures
            watch.inner() == monitor,
            watch.reports() == Seq::<usize>::empty(),
    {
        Watch { monitor, told: Ghost(Seq::empty()) }
    }

    /// Gives up the record for the monitor underneath.
    pub fn into_inner(self) -> (monitor: M)
        ensures
            monitor == self.inner(),
    {
        self.monitor
    }

    /// Notes that window `done` of `total` is taken, and reports the
    /// percentage if a report is due: always on the last window, and on
    /// another only if the monitor says that the reporting period has passed.
    pub fn tick(&mut self, done: usize, total: usize)
        requires
            0 < total,
            done <= total,
        ensures
            done == total ==> final(self).reports() == old(self).reports().push(100),
            done < total ==> final(self).reports() == old(self).reports() || final(self).reports()
                == old(self).reports().push((100 * done / total as int) as usize),
    {
        let elapsed = self.monitor.elapsed_secs();
        if report_due(elapsed, done, total) {
            let percent = progress(done, total);
            self.monitor.report(percent);
            proof {
                self.told@ = self.told@.push(percent);
                if done == total {
                    assert(100 * done / total as int == 100) by (nonlinear_arith)
                        requires
                            done == total,
                            total > 0,
                    ;
                }
            }
        }
    }
}

/// What is done with each page of an image.
#[derive(Copy, Clone, Debug)]
pub enum PageAction {
    /// The page is written to the flash.
    Program,
    /// The page is compared with the flash.
    Verify,
}

/// The erase of each of `sectors`, in their order.
pub open spec fn erase_ops(sectors: Seq<u8>) -> Seq<FlashOp> {
    Seq::new(sectors.len(), |i: int| FlashOp::Erase { sector: sectors[i] })
}

/// The attempts of a run through `all` that tried the first `tried` of them
/// and ended with `r`: each but the last went well, and the last ended as the
/// run did.
pub open spec fn run_of(all: Seq<FlashOp>, tried: int, r: Result<(), Error>) -> Seq<Attempt> {
    Seq::new(
        tried as nat,
        |k: int|
            Attempt {
                op: all[k],
                result: if k + 1 < tried {
                    Ok(())
                } else {
                    r
                },
            },
    )
}

/// What a run through `all` that ended with `r` has made of the flash's
/// log: the operations were tried in their order up to the first that
/// failed, whose error is the run's, or all of them went well and so did the
/// run.
pub open spec fn ran(
    before: Seq<Attempt>,
    after: Seq<Attempt>,
    all: Seq<FlashOp>,
    r: Result<(), Error>,
) -> bool {
    let tried = after.len() - before.len();
    &&& 1 <= tried <= all.len()
    &&& after == before + run_of(all, tried, r)
    &&& r is Ok ==> tried == all.len()
}

/// A run that has gone well so far and now tries one more operation ends
/// as that operation does.
pub proof fn lemma_run_step(all: Seq<FlashOp>, k: int, r: Result<(), Error>)
    requires
        0 <= k < all.len(),
    ensures
        run_of(all, k, Ok(())).push(Attempt { op: all[k], result: r }) == run_of(all, k + 1, r),
{
    assert(run_of(all, k, Ok(())).push(Attempt { op: all[k], result: r }) =~= run_of(
        all,
        k + 1,
        r,
    ));
}

/// An image, the place in the flash where it goes, and who is told of the
/// progress.
pub struct FPGAProg<M: Monitor> {
    reader: Vec<u8>,
    offset: usize,
    watch: Watch<M>,
}

impl<M: Monitor> FPGAProg<M> {
    /// The image's bytes: byte `i` belongs at flash address `offset + i`.
    pub closed spec fn image(&self) -> Seq<u8> {
        self.reader@
    }

    /// The region of the flash that the image covers.
    pub closed spec fn range(&self) -> Range {
        Range { start: self.offset, len: self.reader@.len() as usize }
    }

    /// Every report of progress that was made, oldest first.
    pub closed spec fn reports(&self) -> Seq<usize> {
        self.watch.reports()
    }

    /// Who is told of the progress.
    pub closed spec fn monitor(&self) -> M {
        self.watch.inner()
    }

    /// The programmer of `image` at flash address `offset`, watched by
    /// `monitor`.
    pub fn new(image: Vec<u8>, offset: usize, monitor: M) -> (prog: Self)
        ensures
            prog.image() == image@,
            prog.range() == (Range { start: offset, len: image@.len() as usize }),
            prog.monitor() == monitor,
            prog.reports() == Seq::<usize>::empty(),
    {
        FPGAProg { reader: image, offset, watch: Watch::new(monitor) }
    }

    /// Gives up the programmer for its monitor.
    pub fn into_monitor(self) -> (monitor: M)
        ensures
            monitor == self.monitor(),
    {
        self.watch.into_inner()
    }

    /// The region of the flash that the image covers.
    pub fn span(&self) -> (range: Range)
        ensures
            range == self.range(),
    {
        Range::new(self.offset, self.reader.len())
    }

    /// What is done with page `k` of the image: the action, at the start of
    /// window `k`, with the image's bytes that fall into that window.
    pub open spec fn page_op(&self, action: PageAction, k: int) -> FlashOp {
        let window = self.range().spec_page(PAGE_SIZE, k);
        let data = self.image().subrange(k * PAGE_SIZE, k * PAGE_SIZE + window.len);
        match action {
            PageAction::Program => FlashOp::Program { addr: window.start, data },
            PageAction::Verify => FlashOp::Verify { addr: window.start, data },
        }
    }

    /// What is done with the whole image: the action on each of its pages, in
    /// rising order.
    pub open spec fn page_ops(&self, action: PageAction) -> Seq<FlashOp> {
        Seq::new(
            self.range().page_count(PAGE_SIZE) as nat,
            |k: int| self.page_op(action, k),
        )
    }

    /// Erases every sector that the image touches, in rising order, and stops
    /// at the first failure.
    ///
    /// If a sector index does not fit in a byte, nothing is asked of the flash
    /// and the conversion error comes back. Otherwise the sectors are erased
    /// one by one, up to the first erase that fails, whose error comes back.
    pub fn erase<T: Programmable>(&self, fpga: &mut T) -> (r: Result<(), Error>)
        requires
            self.range().end() <= usize::MAX,
        ensures
            !self.range().sectors_fit() ==> r is Err && r->Err_0 is FromInt && final(fpga).ops()
                == old(fpga).ops(),
            self.range().sectors_fit() ==> ran(
                old(fpga).ops(),
                final(fpga).ops(),
                erase_ops(self.range().spec_sectors()),
                r,
            ),
    {
        let sectors = self.span().sectors()?;
        let ghost all = erase_ops(sectors@);
        let mut i: usize = 0;
        proof {
            assert(fpga.ops() =~= old(fpga).ops() + run_of(all, 0, Ok(())));
        }
        while i < sectors.len()
            invariant
                i <= sectors@.len(),
                sectors@.len() >= 1,
                self.range().sectors_fit(),
                sectors@ == self.range().spec_sectors(),
                all == erase_ops(sectors@),
                fpga.ops() == old(fpga).ops() + run_of(all, i as int, Ok(())),
            decreases sectors@.len() - i,
        {
            let done = fpga.erase64k(sectors[i]);
            proof {
                lemma_run_step(all, i as int, done);
                assert(fpga.ops() =~= old(fpga).ops() + run_of(all, i + 1, done));
                if done is Ok {
                    lemma_ok_is_unit(done);
                }
            }
            match done {
                Ok(()) => {},
                Err(e) => {
                    return Err(e);
                },
            }
            i += 1;
        }
        Ok(())
    }

    /// What taking the image page by page has done, given the result: the
    /// image and its place are as before, the action was tried on the pages
    /// in their order up to the first that failed, whose error is the
    /// result's, and reports of progress were made, of which the last says
    /// 100 when the result is `Ok`.
    pub open spec fn paged(
        before: &Self,
        after: &Self,
        ops_before: Seq<Attempt>,
        ops_after: Seq<Attempt>,
        action: PageAction,
        r: Result<(), Error>,
    ) -> bool {
        &&& after.image() == before.image()
        &&& after.range() == before.range()
        &&& ran(ops_before, ops_after, before.page_ops(action), r)
        &&& before.reports().is_prefix_of(after.reports())
        &&& r is Ok ==> after.reports().len() > before.reports().len() && after.reports().last()
            == 100
    }

    /// Takes the image page by page, in rising order, and does `action` with
    /// each page: window `k` of the range with the image's bytes that fall
    /// into it. Progress is noted as each window is taken. Stops at the first
    /// failure.
    pub fn do_pages<T: Programmable>(&mut self, fpga: &mut T, action: PageAction) -> (r: Result<
        (),
        Error,
    >)
        requires
            old(self).range().len > 0,
            old(self).range().end() <= usize::MAX,
        ensures
            Self::paged(old(self), final(self), old(fpga).ops(), final(fpga).ops(), action, r),
    {
        let range = self.span();
        let count = range.count_pages::<PAGE_SIZE>();
        let ghost all = self.page_ops(action);
        let mut k: usize = 0;
        proof {
            assert(fpga.ops() =~= old(fpga).ops() + run_of(all, 0, Ok(())));
        }
        while k < count
            invariant
                k <= count,
                count == all.len(),
                count >= 1,
                self.reader == old(self).reader,
                self.offset == old(self).offset,
                range == self.range(),
                range.len > 0,
                range.end() <= usize::MAX,
                count == range.page_count(PAGE_SIZE),
                all == old(self).page_ops(action),
                fpga.ops() == old(fpga).ops() + run_of(all, k as int, Ok(())),
                old(self).reports().is_prefix_of(self.reports()),
                k == count ==> self.reports().len() > old(self).reports().len()
                    && self.reports().last() == 100,
            decreases count - k,
        {
            let window = range.page::<PAGE_SIZE>(k);
            proof {
                lemma_page_bounds(range, PAGE_SIZE, k as int);
            }
            self.watch.tick(k + 1, count);
            let from: usize = k * PAGE_SIZE;
            let data = slice_subrange(self.reader.as_slice(), from, from + window.len);
            let done = match action {
                PageAction::Program => fpga.program_page(window.start, data),
                PageAction::Verify => fpga.verify_page(window.start, data),
            };
            proof {
                lemma_run_step(all, k as int, done);
                assert(fpga.ops() =~= old(fpga).ops() + run_of(all, k + 1, done));
                if done is Ok {
                    lemma_ok_is_unit(done);
                }
            }
            match done {
                Ok(()) => {},
                Err(e) => {
                    return Err(e);
                },
            }
            k += 1;
        }
        Ok(())
    }

    /// Programs the whole image, from its first byte on, page by page, and
    /// stops at the first failure.
    pub fn program<T: Programmable>(&mut self, fpga: &mut T) -> (r: Result<(), Error>)
        requires
            old(self).range().len > 0,
            old(self).range().end() <= usize::MAX,
        ensures
            Self::paged(
                old(self),
                final(self),
                old(fpga).ops(),
                final(fpga).ops(),
                PageAction::Program,
                r,
            ),
    {
        self.do_pages(fpga, PageAction::Program)
    }

    /// Verifies the whole image, from its first byte on, page by page, and
    /// stops at the first failure.
    pub fn verify<T: Programmable>(&mut self, fpga: &mut T) -> (r: Result<(), Error>)
        requires
            old(self).range().len > 0,
            old(self).range().end() <= usize::MAX,
        ensures
            Self::paged(
                old(self),
                final(self),
                old(fpga).ops(),
                final(fpga).ops(),
                PageAction::Verify,
                r,
            ),
    {
        self.do_pages(fpga, PageAction::Verify)
    }
}

/// The bytes that one read handed on: none if it failed.
pub open spec fn read_data(read: PageRead) -> Seq<u8> {
    match read.result {
        Ok(data) => data,
        Err(_) => Seq::empty(),
    }
}

/// The bytes that `reads` handed on, one read after the other.
pub open spec fn read_back(reads: Seq<PageRead>) -> Seq<u8>
    decreases reads.len(),
{
    if reads.len() == 0 {
        Seq::empty()
    } else {
        read_back(reads.drop_last()) + read_data(reads.last())
    }
}

/// One more read hands on what the reads before it did, and then its own
/// bytes.
pub proof fn lemma_read_back_push(reads: Seq<PageRead>, read: PageRead)
    ensures
        read_back(reads.push(read)) == read_back(reads) + read_data(read),
{
    assert(reads.push(read).drop_last() =~= reads);
}

/// What a dump of `range` that ended with `r` has asked of the flash: the
/// windows of the range were read in their order, each at its start and in
/// its length, up to the first read that failed, whose error is the dump's,
/// or all of them went well and so did the dump. A read that went well
/// handed on as many bytes as its window holds. The failure is a refusal
/// exactly when the flash refuses the window at which the dump stopped.
pub open spec fn dumped(range: Range, reads: Seq<PageRead>, r: Result<(), Error>) -> bool {
    let tried = reads.len() as int;
    let last = range.spec_page(PAGE_SIZE, tried - 1);
    &&& 1 <= tried <= range.page_count(PAGE_SIZE)
    &&& forall|k: int|
        0 <= k < tried ==> (#[trigger] reads[k]).addr == range.spec_page(PAGE_SIZE, k).start
            && reads[k].len == range.spec_page(PAGE_SIZE, k).len
    &&& forall|k: int|
        0 <= k < tried && (#[trigger] reads[k]).result is Ok ==> reads[k].result->Ok_0.len()
            == reads[k].len
    &&& forall|k: int| 0 <= k < tried - 1 ==> (#[trigger] reads[k]).result is Ok
    &&& match r {
        Ok(()) => reads[tried - 1].result is Ok && tried == range.page_count(PAGE_SIZE),
        Err(e) => reads[tried - 1].result == Err::<Seq<u8>, Error>(e),
    }
    &&& match read_refusal(last.start, last.len) {
        Some(refusal) => r == Err::<(), Error>(Error::Range(refusal)),
        None => !(r is Err && r->Err_0 is Range),
    }
}

/// A region of the flash to read back, the bytes read from it so far, and
/// who is told of the progress.
pub struct FPGADump<M: Monitor> {
    writer: Vec<u8>,
    range: Range,
    watch: Watch<M>,
}

impl<M: Monitor> FPGADump<M> {
    /// The bytes that were read back so far.
    pub closed spec fn output(&self) -> Seq<u8> {
        self.writer@
    }

    /// The region of the flash to read back.
    pub closed spec fn range(&self) -> Range {
        self.range
    }

    /// Every report of progress that was made, oldest first.
    pub closed spec fn reports(&self) -> Seq<usize> {
        self.watch.reports()
    }

    /// Who is told of the progress.
    pub closed spec fn monitor(&self) -> M {
        self.watch.inner()
    }

    /// The dump of `size` bytes from flash address `offset` on, watched by
    /// `monitor`, with nothing read yet.
    pub fn new(offset: usize, size: usize, monitor: M) -> (dump: Self)
        ensures
            dump.output() == Seq::<u8>::empty(),
            dump.range() == (Range { start: offset, len: size }),
            dump.monitor() == monitor,
            dump.reports() == Seq::<usize>::empty(),
    {
        FPGADump { writer: Vec::new(), range: Range::new(offset, size), watch: Watch::new(monitor) }
    }

    /// The region of the flash to read back.
    pub fn span(&self) -> (range: Range)
        ensures
            range == self.range(),
    {
        self.range
    }

    /// Gives up the dump for its monitor.
    pub fn into_monitor(self) -> (monitor: M)
        ensures
            monitor == self.monitor(),
    {
        self.watch.into_inner()
    }

    /// Gives up the dump for the bytes that were read back.
    pub fn into_inner(self) -> (bytes: Vec<u8>)
        ensures
            bytes@ == self.output(),
    {
        self.writer
    }

    /// Reads the region back window by window, in rising order, appends each
    /// chunk to the output, and stops at the first failure. Progress is noted
    /// as each window is taken.
    ///
    /// The flash was asked as `dumped` says, and the output has gained what
    /// the reads handed on, in their order: the whole region when the result
    /// is `Ok`. Reports of progress were made, of which the last says 100
    /// when the result is `Ok`.
    pub fn dump<T: Dumpable>(&mut self, fpga: &mut T) -> (r: Result<(), Error>)
        requires
            old(self).range().len > 0,
            old(self).range().end() <= usize::MAX,
        ensures
            final(self).range() == old(self).range(),
            old(self).reports().is_prefix_of(final(self).reports()),
            r is Ok ==> final(self).reports().len() > old(self).reports().len(),
            r is Ok ==> final(self).reports().last() == 100,
            final(fpga).reads() == old(fpga).reads() + final(fpga).reads().skip(
                old(fpga).reads().len() as int,
            ),
            dumped(
                old(self).range(),
                final(fpga).reads().skip(old(fpga).reads().len() as int),
                r,
            ),
            final(self).output() == old(self).output() + read_back(
                final(fpga).reads().skip(old(fpga).reads().len() as int),
            ),
            r is Ok ==> final(self).output().len() - old(self).output().len()
                == final(self).range().len,
    {
        let range = self.range;
        let count = range.count_pages::<PAGE_SIZE>();
        let ghost base = fpga.reads();
        let ghost out = self.writer@;
        let mut k: usize = 0;
        proof {
            assert(fpga.reads().skip(base.len() as int) =~= Seq::<PageRead>::empty());
            assert(fpga.reads() =~= base + fpga.reads().skip(base.len() as int));
            assert(self.writer@ =~= out + read_back(Seq::<PageRead>::empty()));
        }
        while k < count
            invariant
                k <= count,
                count >= 1,
                range == self.range,
                self.range == old(self).range,
                old(self).reports().is_prefix_of(self.reports()),
                k == count ==> self.reports().len() > old(self).reports().len()
                    && self.reports().last() == 100,
                base == old(fpga).reads(),
                out == old(self).writer@,
                range.len > 0,
                range.end() <= usize::MAX,
                count == range.page_count(PAGE_SIZE),
                fpga.reads() == base + fpga.reads().skip(base.len() as int),
                fpga.reads().len() == base.len() + k,
                forall|j: int|
                    0 <= j < k ==> {
                        let read = #[trigger] fpga.reads().skip(base.len() as int)[j];
                        &&& read.addr == range.spec_page(PAGE_SIZE, j).start
                        &&& read.len == range.spec_page(PAGE_SIZE, j).len
                        &&& read.result is Ok
                        &&& read.result->Ok_0.len() == read.len
                    },
                k > 0 ==> read_refusal(
                    range.spec_page(PAGE_SIZE, k - 1).start,
                    range.spec_page(PAGE_SIZE, k - 1).len,
                ) is None,
                self.writer@ == out + read_back(fpga.reads().skip(base.len() as int)),
                self.writer@.len() == out.len() + if k < count {
                    k * PAGE_SIZE
                } else {
                    range.len as int
                },
            decreases count - k,
        {
            let window = range.page::<PAGE_SIZE>(k);
            let ghost before = fpga.reads();
            let ghost written = self.writer@;
            proof {
                lemma_page_bounds(range, PAGE_SIZE, k as int);
            }
            self.watch.tick(k + 1, count);
            let done = fpga.read_page(window.start, window.len, &mut self.writer);
            proof {
                let chunk = self.writer@.skip(written.len() as int);
                let read = PageRead {
                    addr: window.start,
                    len: window.len,
                    result: crate::dev::read_outcome(done, chunk),
                };
                let served = before.skip(base.len() as int);
                assert(self.writer@ =~= written + chunk);
                assert(fpga.reads().skip(base.len() as int) =~= served.push(read));
                assert(fpga.reads() =~= base + served.push(read));
                lemma_read_back_push(served, read);
                if done is Err {
                    assert(chunk =~= Seq::<u8>::empty());
                    assert(written + read_data(read) =~= written);
                }
                if k + 1 < count {
                    lemma_page_whole(range, PAGE_SIZE, k as int);
                    assert((k + 1) * PAGE_SIZE == k * PAGE_SIZE + PAGE_SIZE) by (nonlinear_arith);
                } else {
                    lemma_page_last(range, PAGE_SIZE);
                }
            }
            match done {
                Ok(()) => {},
                Err(e) => {
                    return Err(e);
                },
            }
            k += 1;
        }
        Ok(())
    }
}

} // verus!
