//! Per-thread benchmark counters.
//!
//! The engine's drivers tally commits, aborts, flushed and logged
//! bytes, and elapsed time. Time is carried as ticks supplied by the
//! caller; the library never reads a clock itself.

use vstd::prelude::*;

verus! {

/// Tallies for one driver thread. All counts saturate nowhere: each
/// bump requires headroom, which every realistic run has.
#[derive(Debug)]
pub struct BenchmarkCounter {
    pub success_piece_cnt: u32,
    pub abort_piece_cnt: u32,
    pub success_cnt: u32,
    pub abort_cnt: u32,
    pub new_order_cnt: u32,
    pub get_time_cnt: u32,
    pub mmap_cnt: u32,
    pub pmem_flush_size: u32,
    pub pmem_log_size: u32,
    pub duration: u64,
    pub start: u64,
    pub avg_get_time: u64,
    pub success_over_time: Vec<u32>,
}

impl BenchmarkCounter {
    pub fn new() -> (c: BenchmarkCounter)
        ensures
            c.success_cnt == 0,
            c.abort_cnt == 0,
            c.success_piece_cnt == 0,
            c.abort_piece_cnt == 0,
            c.new_order_cnt == 0,
            c.get_time_cnt == 0,
            c.mmap_cnt == 0,
            c.pmem_flush_size == 0,
            c.pmem_log_size == 0,
            c.duration == 0,
            c.start == 0,
            c.avg_get_time == 0,
            c.success_over_time@.len() == 0,
    {
        BenchmarkCounter {
            success_cnt: 0,
            abort_cnt: 0,
            success_piece_cnt: 0,
            abort_piece_cnt: 0,
            new_order_cnt: 0,
            get_time_cnt: 0,
            mmap_cnt: 0,
            pmem_flush_size: 0,
            pmem_log_size: 0,
            start: 0,
            duration: 0,
            avg_get_time: 0,
            success_over_time: Vec::new(),
        }
    }

    /// Clears every tally and restarts the clock at `now`.
    pub fn reset_cnt(&mut self, now: u64)
        ensures
            final(self).success_cnt == 0,
            final(self).abort_cnt == 0,
            final(self).success_piece_cnt == 0,
            final(self).abort_piece_cnt == 0,
            final(self).new_order_cnt == 0,
            final(self).get_time_cnt == 0,
            final(self).mmap_cnt == 0,
            final(self).pmem_flush_size == 0,
            final(self).pmem_log_size == 0,
            final(self).start == now,
            final(self).success_over_time@.len() == 0,
            final(self).duration == old(self).duration,
            final(self).avg_get_time == old(self).avg_get_time,
    {
        self.success_cnt = 0;
        self.abort_cnt = 0;
        self.success_piece_cnt = 0;
        self.abort_piece_cnt = 0;
        self.new_order_cnt = 0;
        self.mmap_cnt = 0;
        self.pmem_flush_size = 0;
        self.pmem_log_size = 0;
        self.get_time_cnt = 0;
        self.start = now;
        self.success_over_time = Vec::new();
    }

    /// One more committed transaction.
    pub fn success(&mut self)
        requires
            old(self).success_cnt < u32::MAX,
        ensures
            final(self).success_cnt == old(self).success_cnt + 1,
            final(self).abort_cnt == old(self).abort_cnt,
            final(self).success_piece_cnt == old(self).success_piece_cnt,
            final(self).abort_piece_cnt == old(self).abort_piece_cnt,
            final(self).success_over_time@ == old(self).success_over_time@,
    {
        self.success_cnt = self.success_cnt + 1;
    }

    /// Samples the running success count into the time series.
    pub fn timestamp(&mut self)
        ensures
            final(self).success_over_time@ == old(self).success_over_time@.push(
                old(self).success_cnt,
            ),
            final(self).success_cnt == old(self).success_cnt,
            final(self).abort_cnt == old(self).abort_cnt,
    {
        let cur: u32 = self.success_cnt;
        self.success_over_time.push(cur);
    }

    /// Tallies `len` flushed bytes.
    pub fn flush(&mut self, len: usize)
        requires
            old(self).pmem_flush_size + len <= u32::MAX,
        ensures
            final(self).pmem_flush_size == old(self).pmem_flush_size + len,
            final(self).pmem_log_size == old(self).pmem_log_size,
            final(self).success_cnt == old(self).success_cnt,
            final(self).abort_cnt == old(self).abort_cnt,
    {
        self.pmem_flush_size = self.pmem_flush_size + (len as u32);
    }

    /// Tallies `len` logged bytes.
    pub fn log(&mut self, len: usize)
        requires
            old(self).pmem_log_size + len <= u32::MAX,
        ensures
            final(self).pmem_log_size == old(self).pmem_log_size + len,
            final(self).pmem_flush_size == old(self).pmem_flush_size,
            final(self).success_cnt == old(self).success_cnt,
            final(self).abort_cnt == old(self).abort_cnt,
    {
        self.pmem_log_size = self.pmem_log_size + (len as u32);
    }

    /// One more timed read.
    pub fn get_time(&mut self)
        requires
            old(self).get_time_cnt < u32::MAX,
        ensures
            final(self).get_time_cnt == old(self).get_time_cnt + 1,
            final(self).success_cnt == old(self).success_cnt,
            final(self).abort_cnt == old(self).abort_cnt,
    {
        self.get_time_cnt = self.get_time_cnt + 1;
    }

    pub fn set_get_time(&mut self, t: u64)
        ensures
            final(self).avg_get_time == t,
            final(self).success_cnt == old(self).success_cnt,
            final(self).abort_cnt == old(self).abort_cnt,
    {
        self.avg_get_time = t;
    }

    /// One more mapped region.
    pub fn mmap(&mut self)
        requires
            old(self).mmap_cnt < u32::MAX,
        ensures
            final(self).mmap_cnt == old(self).mmap_cnt + 1,
            final(self).success_cnt == old(self).success_cnt,
            final(self).abort_cnt == old(self).abort_cnt,
    {
        self.mmap_cnt = self.mmap_cnt + 1;
    }

    /// One more committed piece.
    pub fn success_piece(&mut self)
        requires
            old(self).success_piece_cnt < u32::MAX,
        ensures
            final(self).success_piece_cnt == old(self).success_piece_cnt + 1,
            final(self).abort_piece_cnt == old(self).abort_piece_cnt,
            final(self).success_cnt == old(self).success_cnt,
            final(self).abort_cnt == old(self).abort_cnt,
    {
        self.success_piece_cnt = self.success_piece_cnt + 1;
    }

    /// One more aborted piece.
    pub fn abort_piece(&mut self)
        requires
            old(self).abort_piece_cnt < u32::MAX,
        ensures
            final(self).abort_piece_cnt == old(self).abort_piece_cnt + 1,
            final(self).success_piece_cnt == old(self).success_piece_cnt,
            final(self).success_cnt == old(self).success_cnt,
            final(self).abort_cnt == old(self).abort_cnt,
    {
        self.abort_piece_cnt = self.abort_piece_cnt + 1;
    }

    /// One more completed new-order transaction.
    pub fn new_order_done(&mut self)
        requires
            old(self).new_order_cnt < u32::MAX,
        ensures
            final(self).new_order_cnt == old(self).new_order_cnt + 1,
            final(self).success_cnt == old(self).success_cnt,
            final(self).abort_cnt == old(self).abort_cnt,
    {
        self.new_order_cnt = self.new_order_cnt + 1;
    }

    /// Restarts the clock at `now`.
    pub fn start(&mut self, now: u64)
        ensures
            final(self).start == now,
            final(self).success_cnt == old(self).success_cnt,
            final(self).abort_cnt == old(self).abort_cnt,
            final(self).duration == old(self).duration,
    {
        self.start = now;
    }

    /// One more aborted transaction.
    pub fn abort(&mut self)
        requires
            old(self).abort_cnt < u32::MAX,
        ensures
            final(self).abort_cnt == old(self).abort_cnt + 1,
            final(self).success_cnt == old(self).success_cnt,
            final(self).success_piece_cnt == old(self).success_piece_cnt,
            final(self).abort_piece_cnt == old(self).abort_piece_cnt,
            final(self).success_over_time@ == old(self).success_over_time@,
    {
        self.abort_cnt = self.abort_cnt + 1;
    }

    /// Fixes the elapsed time at `now` and hands out a snapshot of
    /// every tally.
    pub fn copy(&mut self, now: u64) -> (c: BenchmarkCounter)
        requires
            old(self).start <= now,
        ensures
            final(self).duration == now - old(self).start,
            final(self).success_cnt == old(self).success_cnt,
            final(self).abort_cnt == old(self).abort_cnt,
            final(self).start == old(self).start,
            c.success_cnt == old(self).success_cnt,
            c.abort_cnt == old(self).abort_cnt,
            c.success_piece_cnt == old(self).success_piece_cnt,
            c.abort_piece_cnt == old(self).abort_piece_cnt,
            c.new_order_cnt == old(self).new_order_cnt,
            c.get_time_cnt == old(self).get_time_cnt,
            c.mmap_cnt == old(self).mmap_cnt,
            c.pmem_flush_size == old(self).pmem_flush_size,
            c.pmem_log_size == old(self).pmem_log_size,
            c.duration == now - old(self).start,
            c.start == old(self).start,
            c.avg_get_time == old(self).avg_get_time,
            c.success_over_time@ == old(self).success_over_time@,
    {
        self.duration = now - self.start;
        let mut series: Vec<u32> = Vec::new();
        let mut i: usize = 0;
        while i < self.success_over_time.len()
            invariant
                i <= self.success_over_time@.len(),
                series@ == self.success_over_time@.subrange(0, i as int),
            decreases self.success_over_time@.len() - i,
        {
            series.push(self.success_over_time[i]);
            i = i + 1;
        }
        proof {
            assert(series@ == self.success_over_time@);
        }
        BenchmarkCounter {
            success_cnt: self.success_cnt,
            abort_cnt: self.abort_cnt,
            success_piece_cnt: self.success_piece_cnt,
            abort_piece_cnt: self.abort_piece_cnt,
            new_order_cnt: self.new_order_cnt,
            get_time_cnt: self.get_time_cnt,
            mmap_cnt: self.mmap_cnt,
            pmem_flush_size: self.pmem_flush_size,
            pmem_log_size: self.pmem_log_size,
            duration: self.duration,
            start: self.start,
            avg_get_time: self.avg_get_time,
            success_over_time: series,
        }
    }

    /// Adds an elapsed slice to the recorded duration.
    pub fn add_time(&mut self, dur: u64)
        requires
            old(self).duration + dur <= u64::MAX,
        ensures
            final(self).duration == old(self).duration + dur,
            final(self).success_cnt == old(self).success_cnt,
            final(self).abort_cnt == old(self).abort_cnt,
    {
        self.duration = self.duration + dur;
    }
}

} // verus!
