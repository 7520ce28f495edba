use vstd::prelude::*;

verus! {

/// Fewest disks a RAID-Z2 array can have: two parity disks and two data disks.
pub const MIN_DISKS: u32 = 4;

/// Disks worth of capacity that double parity reserves.
pub const PARITY_DISKS: u32 = 2;

/// One disk type of a catalog.
#[derive(Clone, Copy, Debug, PartialEq, Eq)]
pub struct Disk {
    /// Capacity in hundredths of a terabyte.
    pub size: u64,
    /// Price in cents.
    pub cost: u64,
}

/// Why a configuration could not be built.
#[derive(Clone, Copy, Debug, PartialEq, Eq)]
pub enum ConfigError {
    /// Fewer than `MIN_DISKS` disks were asked for.
    InvalidConfiguration,
}

/// One candidate array: a disk type and how many of it.
#[derive(Clone, Copy, Debug)]
pub struct Raidz2Config {
    disk: Disk,
    num_disks: u32,
}

/// Raw capacity of `n` disks of `size` each.
pub open spec fn raw_of(size: int, n: int) -> int {
    size * n
}

/// Capacity left for data once two disks worth are reserved for parity.
pub open spec fn usable_of(size: int, n: int) -> int {
    size * (n - PARITY_DISKS)
}

/// Price of `n` disks of `cost` each.
pub open spec fn cost_of(cost: int, n: int) -> int {
    cost * n
}

/// `num * 100 / den`, rounded to the nearest integer, halves up: a price per
/// terabyte in cents when `num` is in cents and `den` in hundredths of a terabyte.
pub open spec fn per_tb(num: int, den: int) -> int
    recommends
        den > 0,
{
    (200 * num + den) / (2 * den)
}

impl Raidz2Config {
    #[verifier::type_invariant]
    spec fn well_formed(self) -> bool {
        self.num_disks >= MIN_DISKS
    }

    /// The disk type of the array.
    pub closed spec fn disk_spec(self) -> Disk {
        self.disk
    }

    /// The number of disks of the array.
    pub closed spec fn count_spec(self) -> u32 {
        self.num_disks
    }

    /// The configuration of `count` disks of type `disk`, as a value.
    pub closed spec fn of(disk: Disk, count: u32) -> Raidz2Config {
        Raidz2Config { disk, num_disks: count }
    }

    pub proof fn lemma_of(disk: Disk, count: u32)
        ensures
            Self::of(disk, count).disk_spec() == disk,
            Self::of(disk, count).count_spec() == count,
    {
    }

    /// Two configurations with the same disk type and count are the same.
    pub proof fn lemma_of_eq(a: Raidz2Config, b: Raidz2Config)
        requires
            a.disk_spec() == b.disk_spec(),
            a.count_spec() == b.count_spec(),
        ensures
            a == b,
    {
    }

    /// Builds the array of `num_disks` disks of type `disk`; fewer than
    /// `MIN_DISKS` disks is `InvalidConfiguration`.
    pub fn new(disk: Disk, num_disks: u32) -> (r: Result<Raidz2Config, ConfigError>)
        ensures
            num_disks < MIN_DISKS <==> r == Err::<Raidz2Config, ConfigError>(ConfigError::InvalidConfiguration),
            num_disks >= MIN_DISKS <==> r == Ok::<Raidz2Config, ConfigError>(Self::of(disk, num_disks)),
    {
        if num_disks < MIN_DISKS {
            Err(ConfigError::InvalidConfiguration)
        } else {
            Ok(Raidz2Config { disk, num_disks })
        }
    }

    /// The disk type of the array.
    pub fn disk(&self) -> (r: Disk)
        ensures
            r == self.disk_spec(),
    {
        self.disk
    }

    /// The number of disks of the array.
    pub fn num_disks(&self) -> (r: u32)
        ensures
            r == self.count_spec(),
            r >= MIN_DISKS,
    {
        proof { use_type_invariant(self); }
        self.num_disks
    }

    /// Raw capacity in hundredths of a terabyte: disk size times disk count.
    pub fn raw_storage_tb(&self) -> (r: u128)
        ensures
            r == raw_of(self.disk_spec().size as int, self.count_spec() as int),
    {
        let s = self.disk.size as u128;
        let n = self.num_disks as u128;
        proof {
            assert(s * n <= 0xffff_ffff_ffff_ffffu128 * 0xffff_ffffu128) by (nonlinear_arith)
                requires s <= 0xffff_ffff_ffff_ffffu128, n <= 0xffff_ffffu128;
        }
        s * n
    }

    /// Usable capacity in hundredths of a terabyte: disk size times the disk
    /// count less the two parity disks.
    pub fn usable_storage_tb(&self) -> (r: u128)
        ensures
            r == usable_of(self.disk_spec().size as int, self.count_spec() as int),
    {
        proof { use_type_invariant(self); }
        let s = self.disk.size as u128;
        let n = (self.num_disks - PARITY_DISKS) as u128;
        proof {
            assert(s * n <= 0xffff_ffff_ffff_ffffu128 * 0xffff_ffffu128) by (nonlinear_arith)
                requires s <= 0xffff_ffff_ffff_ffffu128, n <= 0xffff_ffffu128;
        }
        s * n
    }

    /// Total price in cents: disk price times disk count.
    pub fn total_cost(&self) -> (r: u128)
        ensures
            r == cost_of(self.disk_spec().cost as int, self.count_spec() as int),
    {
        let c = self.disk.cost as u128;
        let n = self.num_disks as u128;
        proof {
            assert(c * n <= 0xffff_ffff_ffff_ffffu128 * 0xffff_ffffu128) by (nonlinear_arith)
                requires c <= 0xffff_ffff_ffff_ffffu128, n <= 0xffff_ffffu128;
        }
        c * n
    }

    /// Price per usable terabyte in cents, rounded to the nearest cent; `None`
    /// where the usable capacity is zero (a disk of size zero).
    pub fn cost_per_usable_tb(&self) -> (r: Option<u128>)
        ensures
            self.disk_spec().size == 0 <==> r is None,
            r is Some ==> r->Some_0 == per_tb(
                cost_of(self.disk_spec().cost as int, self.count_spec() as int),
                usable_of(self.disk_spec().size as int, self.count_spec() as int),
            ),
    {
        proof { use_type_invariant(self); }
        let total = self.total_cost();
        let usable = self.usable_storage_tb();
        proof {
            let s = self.disk.size as int;
            let n = self.num_disks as int;
            let c = self.disk.cost as int;
            let m = n - 2;
            assert(c * n <= 0xffff_ffff_ffff_ffff * 0xffff_ffff) by (nonlinear_arith)
                requires 0 <= c <= 0xffff_ffff_ffff_ffff, 0 <= n <= 0xffff_ffff;
            assert(s * m <= 0xffff_ffff_ffff_ffff * 0xffff_ffff) by (nonlinear_arith)
                requires 0 <= s <= 0xffff_ffff_ffff_ffff, 0 <= m <= 0xffff_ffff;
            assert(s == 0 <==> s * m == 0) by (nonlinear_arith) requires m >= 2, s >= 0;
        }
        per_tb_exec(total, usable)
    }

    /// Price per raw terabyte in cents, rounded to the nearest cent; `None`
    /// where the raw capacity is zero (a disk of size zero).
    pub fn cost_per_raw_tb(&self) -> (r: Option<u128>)
        ensures
            self.disk_spec().size == 0 <==> r is None,
            r is Some ==> r->Some_0 == per_tb(
                cost_of(self.disk_spec().cost as int, self.count_spec() as int),
                raw_of(self.disk_spec().size as int, self.count_spec() as int),
            ),
    {
        proof { use_type_invariant(self); }
        let total = self.total_cost();
        let raw = self.raw_storage_tb();
        proof {
            let s = self.disk.size as int;
            let n = self.num_disks as int;
            let c = self.disk.cost as int;
            assert(c * n <= 0xffff_ffff_ffff_ffff * 0xffff_ffff) by (nonlinear_arith)
                requires 0 <= c <= 0xffff_ffff_ffff_ffff, 0 <= n <= 0xffff_ffff;
            assert(s * n <= 0xffff_ffff_ffff_ffff * 0xffff_ffff) by (nonlinear_arith)
                requires 0 <= s <= 0xffff_ffff_ffff_ffff, 0 <= n <= 0xffff_ffff;
            assert(s == 0 <==> s * n == 0) by (nonlinear_arith) requires n >= 4, s >= 0;
        }
        per_tb_exec(total, raw)
    }
}

/// Usable capacity is raw capacity less two disks worth; for disks of positive
/// size it is strictly below the raw capacity.
pub proof fn lemma_usable_below_raw(c: Raidz2Config)
    ensures
        usable_of(c.disk_spec().size as int, c.count_spec() as int) == raw_of(
            c.disk_spec().size as int,
            c.count_spec() as int,
        ) - 2 * c.disk_spec().size,
        c.disk_spec().size > 0 ==> usable_of(c.disk_spec().size as int, c.count_spec() as int)
            < raw_of(c.disk_spec().size as int, c.count_spec() as int),
{
    let s = c.disk_spec().size as int;
    let n = c.count_spec() as int;
    assert(s * (n - 2) == s * n - 2 * s) by (nonlinear_arith);
}

/// The metrics depend on the configuration alone: asking twice, or asking of an
/// equal configuration, gives the same values.
pub proof fn lemma_metrics_determined(a: Raidz2Config, b: Raidz2Config)
    requires
        a == b,
    ensures
        raw_of(a.disk_spec().size as int, a.count_spec() as int) == raw_of(
            b.disk_spec().size as int,
            b.count_spec() as int,
        ),
        usable_of(a.disk_spec().size as int, a.count_spec() as int) == usable_of(
            b.disk_spec().size as int,
            b.count_spec() as int,
        ),
        cost_of(a.disk_spec().cost as int, a.count_spec() as int) == cost_of(
            b.disk_spec().cost as int,
            b.count_spec() as int,
        ),
{
}

/// `per_tb(num, den)` for a price `num` and a capacity `den`, or `None` when
/// `den` is zero.
fn per_tb_exec(num: u128, den: u128) -> (r: Option<u128>)
    requires
        num <= 0xffff_ffff_ffff_ffffu128 * 0xffff_ffffu128,
        den <= 0xffff_ffff_ffff_ffffu128 * 0xffff_ffffu128,
    ensures
        den == 0 <==> r is None,
        r is Some ==> r->Some_0 == per_tb(num as int, den as int),
{
    if den == 0 {
        None
    } else {
        Some((200 * num + den) / (2 * den))
    }
}

} // verus!
