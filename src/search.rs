use vstd::prelude::*;
use crate::config::{Disk, Raidz2Config, ConfigError, MIN_DISKS, usable_of};

verus! {

/// Smallest disk count the search tries.
pub const FIRST_COUNT: u32 = 4;

/// Largest disk count the search tries.
pub const LAST_COUNT: u32 = 20;

/// `usable` lies within `range_percent` percent of `target`, bounds included:
/// `target * (1 - r) <= usable <= target * (1 + r)` with `r = range_percent / 100`.
pub open spec fn in_band(target: int, range_percent: int, usable: int) -> bool {
    &&& 100 * usable >= target * (100 - range_percent)
    &&& 100 * usable <= target * (100 + range_percent)
}

/// `count` disks of type `disk` give a usable capacity inside the band.
pub open spec fn fits(target: int, range_percent: int, disk: Disk, count: int) -> bool {
    in_band(target, range_percent, usable_of(disk.size as int, count))
}

/// The accepted configurations of one disk type, counts `first` up to `k - 1`
/// in ascending order.
pub open spec fn counts_upto(target: int, range_percent: int, disk: Disk, first: int, k: int) -> Seq<
    Raidz2Config,
>
    decreases k - first,
{
    if k <= first {
        Seq::empty()
    } else {
        let earlier = counts_upto(target, range_percent, disk, first, k - 1);
        if fits(target, range_percent, disk, k - 1) {
            earlier.push(Raidz2Config::of(disk, (k - 1) as u32))
        } else {
            earlier
        }
    }
}

/// The accepted configurations of the first `i` disk types of `disks`, disk
/// type by disk type, each with counts `first` to `last` ascending.
pub open spec fn search_upto(
    target: int,
    range_percent: int,
    disks: Seq<Disk>,
    first: int,
    last: int,
    i: int,
) -> Seq<Raidz2Config>
    decreases i,
{
    if i <= 0 {
        Seq::empty()
    } else {
        search_upto(target, range_percent, disks, first, last, i - 1) + counts_upto(
            target,
            range_percent,
            disks[i - 1],
            first,
            last + 1,
        )
    }
}

/// The result of the search over the whole catalog.
pub open spec fn search(
    target: int,
    range_percent: int,
    disks: Seq<Disk>,
    first: int,
    last: int,
) -> Seq<Raidz2Config> {
    search_upto(target, range_percent, disks, first, last, disks.len() as int)
}

/// Whether `usable` lies in the band of `range_percent` percent round `target`.
fn in_band_exec(target: i64, range_percent: u32, usable: u128) -> (r: bool)
    requires
        usable <= 0xffff_ffff_ffff_ffffu128 * 0xffff_ffffu128,
    ensures
        r == in_band(target as int, range_percent as int, usable as int),
{
    let u = usable as i128 * 100;
    let t = target as i128;
    let below = 100 - range_percent as i128;
    let above = 100 + range_percent as i128;
    proof {
        let ti = t as int;
        assert(-0x8000_0000_0000_0000 * 0x1_0000_0000 <= ti * below <= 0x8000_0000_0000_0000 * 0x1_0000_0000)
            by (nonlinear_arith)
            requires -0x8000_0000_0000_0000 <= ti <= 0x8000_0000_0000_0000, -0x1_0000_0000 <= below <= 100;
        assert(-0x8000_0000_0000_0000 * 0x1_0000_0100 <= ti * above <= 0x8000_0000_0000_0000 * 0x1_0000_0100)
            by (nonlinear_arith)
            requires -0x8000_0000_0000_0000 <= ti <= 0x8000_0000_0000_0000, 0 <= above <= 0x1_0000_0100;
    }
    u >= t * below && u <= t * above
}

/// The configurations of the disk types of `disk_options` with `first_count` to
/// `last_count` disks whose usable capacity lies within `range_percent` percent
/// of `target_storage` (hundredths of a terabyte), bounds included; by disk type
/// in catalog order, then by disk count ascending.
pub fn find_configurations_between(
    target_storage: i64,
    disk_options: &[Disk],
    range_percent: u32,
    first_count: u32,
    last_count: u32,
) -> (r: Vec<Raidz2Config>)
    requires
        first_count >= MIN_DISKS,
        last_count < u32::MAX,
    ensures
        r@ == search(
            target_storage as int,
            range_percent as int,
            disk_options@,
            first_count as int,
            last_count as int,
        ),
{
    let mut r: Vec<Raidz2Config> = Vec::new();
    let mut i: usize = 0;
    while i < disk_options.len()
        invariant
            first_count >= MIN_DISKS,
            last_count < u32::MAX,
            0 <= i <= disk_options@.len(),
            r@ == search_upto(
                target_storage as int,
                range_percent as int,
                disk_options@,
                first_count as int,
                last_count as int,
                i as int,
            ),
        decreases disk_options@.len() - i,
    {
        let disk = disk_options[i];
        let mut n: u32 = first_count;
        let ghost before = r@;
        while n <= last_count
            invariant
                first_count >= MIN_DISKS,
                last_count < u32::MAX,
                first_count <= n,
                n <= last_count + 1 || n == first_count,
                0 <= i < disk_options@.len(),
                disk == disk_options@[i as int],
                before == search_upto(
                    target_storage as int,
                    range_percent as int,
                    disk_options@,
                    first_count as int,
                    last_count as int,
                    i as int,
                ),
                r@ == before + counts_upto(
                    target_storage as int,
                    range_percent as int,
                    disk,
                    first_count as int,
                    n as int,
                ),
            decreases last_count + 1 - n,
        {
            match Raidz2Config::new(disk, n) {
                Ok(config) => {
                    let usable = config.usable_storage_tb();
                    proof {
                        Raidz2Config::lemma_of(disk, n);
                        let s = disk.size as int;
                        let m = n - 2;
                        assert(s * m <= 0xffff_ffff_ffff_ffff * 0xffff_ffff) by (nonlinear_arith)
                            requires 0 <= s <= 0xffff_ffff_ffff_ffff, 0 <= m <= 0xffff_ffff;
                    }
                    if in_band_exec(target_storage, range_percent, usable) {
                        r.push(config);
                    }
                    proof {
                        assert(r@ =~= before + counts_upto(
                            target_storage as int,
                            range_percent as int,
                            disk,
                            first_count as int,
                            n + 1,
                        ));
                    }
                },
                Err(ConfigError::InvalidConfiguration) => {},
            }
            n = n + 1;
        }
        proof {
            if first_count > last_count + 1 {
                assert(counts_upto(
                    target_storage as int,
                    range_percent as int,
                    disk,
                    first_count as int,
                    last_count + 1,
                ) =~= Seq::empty());
            }
        }
        i = i + 1;
    }
    r
}

/// `find_configurations_between` over disk counts `FIRST_COUNT` to `LAST_COUNT`.
pub fn find_configurations(target_storage: i64, disk_options: &[Disk], range_percent: u32) -> (r:
    Vec<Raidz2Config>)
    ensures
        r@ == search(
            target_storage as int,
            range_percent as int,
            disk_options@,
            FIRST_COUNT as int,
            LAST_COUNT as int,
        ),
{
    find_configurations_between(target_storage, disk_options, range_percent, FIRST_COUNT, LAST_COUNT)
}

/// A configuration is among the accepted ones of one disk type, counts `first`
/// up to `k - 1`, exactly when it has that disk type, a count in that range, and
/// a usable capacity inside the band.
proof fn lemma_counts_upto_contains(
    target: int,
    range_percent: int,
    disk: Disk,
    first: int,
    k: int,
    x: Raidz2Config,
)
    requires
        0 <= first,
        k <= 0x1_0000_0000,
    ensures
        counts_upto(target, range_percent, disk, first, k).contains(x) <==> (
        first <= x.count_spec() < k && x.disk_spec() == disk
            && fits(target, range_percent, disk, x.count_spec() as int)),
    decreases k - first,
{
    Raidz2Config::lemma_of(disk, (k - 1) as u32);
    if k > first {
        lemma_counts_upto_contains(target, range_percent, disk, first, k - 1, x);
        let c = Raidz2Config::of(disk, (k - 1) as u32);
        if x.disk_spec() == disk && x.count_spec() == k - 1 {
            Raidz2Config::lemma_of_eq(x, c);
        }
        let earlier = counts_upto(target, range_percent, disk, first, k - 1);
        if fits(target, range_percent, disk, k - 1) {
            assert(earlier.push(c).contains(x) <==> earlier.contains(x) || x == c) by {
                if earlier.push(c).contains(x) {
                    let j = choose|j: int| 0 <= j < earlier.len() + 1 && earlier.push(c)[j] == x;
                    if j < earlier.len() {
                        assert(earlier[j] == x);
                    }
                }
                if earlier.contains(x) {
                    let j = choose|j: int| 0 <= j < earlier.len() && earlier[j] == x;
                    assert(earlier.push(c)[j] == x);
                }
                if x == c {
                    assert(earlier.push(c)[earlier.len() as int] == x);
                }
            }
        }
    }
}

/// A configuration is among those the search over the first `i` disk types
/// accepts exactly when it has one of those disk types, a count from `first` to
/// `last`, and a usable capacity inside the band.
proof fn lemma_search_upto_contains(
    target: int,
    range_percent: int,
    disks: Seq<Disk>,
    first: int,
    last: int,
    i: int,
    x: Raidz2Config,
)
    requires
        0 <= first,
        last < 0x1_0000_0000,
        0 <= i <= disks.len(),
    ensures
        search_upto(target, range_percent, disks, first, last, i).contains(x) <==> (
        exists|j: int|
            0 <= j < i && first <= x.count_spec() <= last && x.disk_spec() == #[trigger] disks[j]
                && fits(target, range_percent, disks[j], x.count_spec() as int)),
    decreases i,
{
    if i > 0 {
        lemma_search_upto_contains(target, range_percent, disks, first, last, i - 1, x);
        lemma_counts_upto_contains(target, range_percent, disks[i - 1], first, last + 1, x);
        let a = search_upto(target, range_percent, disks, first, last, i - 1);
        let b = counts_upto(target, range_percent, disks[i - 1], first, last + 1);
        assert((a + b).contains(x) <==> a.contains(x) || b.contains(x)) by {
            if (a + b).contains(x) {
                let j = choose|j: int| 0 <= j < (a + b).len() && (a + b)[j] == x;
                if j < a.len() {
                    assert(a[j] == x);
                } else {
                    assert(b[j - a.len()] == x);
                }
            }
            if a.contains(x) {
                let j = choose|j: int| 0 <= j < a.len() && a[j] == x;
                assert((a + b)[j] == x);
            }
            if b.contains(x) {
                let j = choose|j: int| 0 <= j < b.len() && b[j] == x;
                assert((a + b)[a.len() + j] == x);
            }
        }
    }
}

/// Soundness and completeness of the search: every configuration it returns has
/// a disk type of the catalog, a count in the searched range and a usable
/// capacity inside the band; and every disk type of the catalog with every count
/// in the range that it does not return has a usable capacity strictly outside
/// the band.
pub proof fn lemma_search_exact(
    target: int,
    range_percent: int,
    disks: Seq<Disk>,
    first: int,
    last: int,
)
    requires
        0 <= first,
        last < 0x1_0000_0000,
    ensures
        forall|x: Raidz2Config| #[trigger]
            search(target, range_percent, disks, first, last).contains(x) ==> {
                &&& disks.contains(x.disk_spec())
                &&& first <= x.count_spec() <= last
                &&& in_band(
                    target,
                    range_percent,
                    usable_of(x.disk_spec().size as int, x.count_spec() as int),
                )
            },
        forall|j: int, c: int|
            0 <= j < disks.len() && first <= c <= last && !search(
                target,
                range_percent,
                disks,
                first,
                last,
            ).contains(Raidz2Config::of(disks[j], c as u32)) ==> !in_band(
                target,
                range_percent,
                #[trigger] usable_of(disks[j].size as int, c),
            ),
{
    let r = search(target, range_percent, disks, first, last);
    assert forall|x: Raidz2Config| #[trigger] r.contains(x) implies {
        &&& disks.contains(x.disk_spec())
        &&& first <= x.count_spec() <= last
        &&& in_band(target, range_percent, usable_of(x.disk_spec().size as int, x.count_spec() as int))
    } by {
        lemma_search_upto_contains(target, range_percent, disks, first, last, disks.len() as int, x);
        let j = choose|j: int|
            0 <= j < disks.len() && first <= x.count_spec() <= last && x.disk_spec() == #[trigger] disks[j]
                && fits(target, range_percent, disks[j], x.count_spec() as int);
        assert(disks[j] == x.disk_spec());
    }
    assert forall|j: int, c: int|
        0 <= j < disks.len() && first <= c <= last && !r.contains(Raidz2Config::of(disks[j], c as u32))
        implies !in_band(target, range_percent, #[trigger] usable_of(disks[j].size as int, c)) by {
        let x = Raidz2Config::of(disks[j], c as u32);
        Raidz2Config::lemma_of(disks[j], c as u32);
        lemma_search_upto_contains(target, range_percent, disks, first, last, disks.len() as int, x);
    }
}

/// The (catalog index, disk count) pairs of the search space whose usable
/// capacity lies inside the band.
pub open spec fn fitting_pairs(
    target: int,
    range_percent: int,
    disks: Seq<Disk>,
    first: int,
    last: int,
) -> Set<(int, int)> {
    Set::new(
        |p: (int, int)|
            0 <= p.0 < disks.len() && first <= p.1 <= last && fits(
                target,
                range_percent,
                disks[p.0],
                p.1,
            ),
    )
}

/// The fitting pairs that come before `(i, k)`: a smaller index, or index `i`
/// and a count below `k`.
spec fn pairs_before(
    target: int,
    range_percent: int,
    disks: Seq<Disk>,
    first: int,
    last: int,
    i: int,
    k: int,
) -> Set<(int, int)> {
    fitting_pairs(target, range_percent, disks, first, last).filter(
        |p: (int, int)| p.0 < i || (p.0 == i && p.1 < k),
    )
}

proof fn lemma_count_counts(
    target: int,
    range_percent: int,
    disks: Seq<Disk>,
    first: int,
    last: int,
    i: int,
    k: int,
)
    requires
        0 <= first,
        0 <= i < disks.len(),
        first <= k <= last + 1,
    ensures
        pairs_before(target, range_percent, disks, first, last, i, k).finite(),
        pairs_before(target, range_percent, disks, first, last, i, k).len() == search_upto(
            target,
            range_percent,
            disks,
            first,
            last,
            i,
        ).len() + counts_upto(target, range_percent, disks[i], first, k).len(),
    decreases i, k - first + 1,
{
    if k == first {
        lemma_count_search(target, range_percent, disks, first, last, i);
        assert(pairs_before(target, range_percent, disks, first, last, i, k) =~= pairs_before(
            target,
            range_percent,
            disks,
            first,
            last,
            i,
            first - 1,
        ));
        assert(pairs_before(target, range_percent, disks, first, last, i, k) =~= pairs_before(
            target,
            range_percent,
            disks,
            first,
            last,
            i - 1,
            last + 1,
        ) || i == 0);
    } else {
        lemma_count_counts(target, range_percent, disks, first, last, i, k - 1);
        let earlier = pairs_before(target, range_percent, disks, first, last, i, k - 1);
        let now = pairs_before(target, range_percent, disks, first, last, i, k);
        if fits(target, range_percent, disks[i], k - 1) {
            assert(now =~= earlier.insert((i, k - 1)));
            assert(!earlier.contains((i, k - 1)));
        } else {
            assert(now =~= earlier);
        }
    }
}

proof fn lemma_count_search(
    target: int,
    range_percent: int,
    disks: Seq<Disk>,
    first: int,
    last: int,
    i: int,
)
    requires
        0 <= first,
        0 <= i <= disks.len(),
    ensures
        pairs_before(target, range_percent, disks, first, last, i, first - 1).finite(),
        pairs_before(target, range_percent, disks, first, last, i, first - 1).len()
            == search_upto(target, range_percent, disks, first, last, i).len(),
    decreases i, 0int,
{
    let here = pairs_before(target, range_percent, disks, first, last, i, first - 1);
    if i == 0 {
        assert(here =~= Set::empty());
    } else {
        if first <= last + 1 {
            lemma_count_counts(target, range_percent, disks, first, last, i - 1, last + 1);
            assert(here =~= pairs_before(target, range_percent, disks, first, last, i - 1, last + 1));
        } else {
            lemma_count_search(target, range_percent, disks, first, last, i - 1);
            assert(here =~= Set::empty());
            assert(pairs_before(target, range_percent, disks, first, last, i - 1, first - 1)
                =~= Set::empty());
        }
    }
}

/// The search returns exactly as many configurations as there are (catalog
/// index, disk count) pairs in its search space whose usable capacity lies in
/// the band: no combination is skipped.
pub proof fn lemma_search_count(
    target: int,
    range_percent: int,
    disks: Seq<Disk>,
    first: int,
    last: int,
)
    requires
        0 <= first,
    ensures
        fitting_pairs(target, range_percent, disks, first, last).finite(),
        search(target, range_percent, disks, first, last).len() == fitting_pairs(
            target,
            range_percent,
            disks,
            first,
            last,
        ).len(),
{
    lemma_count_search(target, range_percent, disks, first, last, disks.len() as int);
    assert(pairs_before(target, range_percent, disks, first, last, disks.len() as int, first - 1)
        =~= fitting_pairs(target, range_percent, disks, first, last));
}

/// When even the largest disk count of every disk type of the catalog leaves a
/// usable capacity below the band, the search returns nothing.
pub proof fn lemma_search_empty_below_band(
    target: int,
    range_percent: int,
    disks: Seq<Disk>,
    first: int,
    last: int,
)
    requires
        0 <= first,
        forall|j: int|
            0 <= j < disks.len() ==> 100 * #[trigger] usable_of(disks[j].size as int, last) < target * (100
                - range_percent),
    ensures
        search(target, range_percent, disks, first, last).len() == 0,
{
    lemma_search_count(target, range_percent, disks, first, last);
    let pairs = fitting_pairs(target, range_percent, disks, first, last);
    assert forall|p: (int, int)| !pairs.contains(p) by {
        if 0 <= p.0 < disks.len() && first <= p.1 <= last {
            let size = disks[p.0].size as int;
            let c = p.1;
            assert(usable_of(size, c) <= usable_of(size, last)) by (nonlinear_arith)
                requires size >= 0, c <= last;
        }
    }
    assert(pairs =~= Set::empty());
}

} // verus!
