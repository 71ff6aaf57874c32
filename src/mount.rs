use vstd::prelude::*;

use crate::format::{div_round_even, fixed2, push_decimal, string_of};

verus! {

/// Capacity figures of one mounted filesystem, in bytes.
pub struct MountStats {
    pub total: u64,
    pub used: u64,
    pub free: u64,
}

impl MountStats {
    /// Used space is what is not free, and free space fits in the capacity.
    pub open spec fn wf(&self) -> bool {
        self.free <= self.total && self.used == self.total - self.free
    }

    /// The figures for a filesystem of `total` bytes with `free` bytes free; none
    /// where more is free than there is.
    pub fn new(total: u64, free: u64) -> (r: Option<MountStats>)
        ensures
            r is Some <==> free <= total,
            r matches Some(m) ==> m.wf() && m.total == total && m.free == free,
    {
        if free > total {
            None
        } else {
            Some(MountStats { total, used: total - free, free })
        }
    }

    /// The figures from a block count, a free block count and a fragment size, as
    /// a filesystem reports them; none where a byte count overflows or more blocks
    /// are free than there are.
    pub fn from_blocks(blocks: u64, free_blocks: u64, block_size: u64) -> (r: Option<MountStats>)
        ensures
            r is Some <==> free_blocks <= blocks && blocks * block_size <= u64::MAX,
            r matches Some(m) ==> m.wf() && m.total == blocks * block_size && m.free == free_blocks
                * block_size,
    {
        if free_blocks > blocks {
            return None;
        }
        match blocks.checked_mul(block_size) {
            None => None,
            Some(total) => {
                assert(free_blocks * block_size <= blocks * block_size) by (nonlinear_arith)
                    requires
                        free_blocks <= blocks,
                ;
                let free = free_blocks * block_size;
                Some(MountStats { total, used: total - free, free })
            },
        }
    }

    /// The share of the capacity in use, in hundredths of a percent, rounded to
    /// the nearest with ties to even; zero for a filesystem of no capacity.
    pub open spec fn usage_hundredths_spec(&self) -> nat {
        if self.total == 0 {
            0
        } else {
            div_round_even(10000 * (self.used as nat), self.total as nat)
        }
    }

    /// The share of the capacity in use, in hundredths of a percent.
    pub fn usage_hundredths(&self) -> (r: u64)
        requires
            self.wf(),
        ensures
            r == self.usage_hundredths_spec(),
    {
        if self.total == 0 {
            return 0;
        }
        let n: u128 = 10000 * (self.used as u128);
        let d: u128 = self.total as u128;
        let q: u128 = n / d;
        let rem: u128 = n % d;
        assert(q <= 10000) by (nonlinear_arith)
            requires
                n == 10000 * (self.used as u128),
                self.used <= self.total,
                d == self.total as u128,
                d > 0,
                q == n / d,
        ;
        if 2 * rem > d || (2 * rem == d && q % 2 == 1) {
            (q + 1) as u64
        } else {
            q as u64
        }
    }

    /// The share in use as text with two decimal places and a percent sign:
    /// `"70.00%"` for 700 bytes used of 1000.
    pub fn usage_text(&self) -> (r: String)
        requires
            self.wf(),
        ensures
            r@ == fixed2(self.usage_hundredths_spec()) + seq!['%'],
    {
        let h = self.usage_hundredths();
        let mut out: Vec<char> = Vec::new();
        push_decimal(&mut out, h / 100);
        out.push('.');
        out.push((((h / 10) % 10) as u8 + 48) as char);
        out.push(((h % 10) as u8 + 48) as char);
        out.push('%');
        assert(out@ =~= fixed2(h as nat) + seq!['%']);
        string_of(&out)
    }
}

/// How full a filesystem is, as its usage bar is coloured.
#[derive(PartialEq, Eq, Structural, Clone, Copy, Debug)]
pub enum UsageLevel {
    /// At most 60% in use.
    Low,
    /// Over 60% and at most 85% in use.
    High,
    /// Over 85% in use.
    Critical,
}

impl MountStats {
    /// How full the filesystem is: over 85% in use is critical, over 60% high;
    /// a filesystem of no capacity is low.
    pub fn usage_level(&self) -> (r: UsageLevel)
        requires
            self.wf(),
        ensures
            r == (if 100 * (self.used as int) > 85 * (self.total as int) {
                UsageLevel::Critical
            } else if 100 * (self.used as int) > 60 * (self.total as int) {
                UsageLevel::High
            } else {
                UsageLevel::Low
            }),
    {
        let used: u128 = 100 * (self.used as u128);
        if used > 85 * (self.total as u128) {
            UsageLevel::Critical
        } else if used > 60 * (self.total as u128) {
            UsageLevel::High
        } else {
            UsageLevel::Low
        }
    }
}

} // verus!
