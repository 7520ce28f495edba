use raidz2::config::{ConfigError, Disk, Raidz2Config};
use raidz2::rank::sort_by_cost;
use raidz2::search::{find_configurations, find_configurations_between};

fn catalog() -> Vec<Disk> {
    vec![
        Disk { size: 200, cost: 112800 },
        Disk { size: 300, cost: 150200 },
        Disk { size: 400, cost: 131800 },
        Disk { size: 600, cost: 205000 },
        Disk { size: 800, cost: 232800 },
        Disk { size: 1200, cost: 311000 },
    ]
}

fn four_tb() -> Disk {
    Disk { size: 400, cost: 131800 }
}

#[test]
fn metrics_of_six_four_tb_disks() {
    let c = Raidz2Config::new(four_tb(), 6).unwrap();
    assert_eq!(c.raw_storage_tb(), 2400);
    assert_eq!(c.usable_storage_tb(), 1600);
    assert_eq!(c.total_cost(), 790800);
    assert_eq!(c.cost_per_usable_tb(), Some(49425));
    assert_eq!(c.cost_per_raw_tb(), Some(32950));
    assert_eq!(c.disk(), four_tb());
    assert_eq!(c.num_disks(), 6);
}

#[test]
fn fewer_than_four_disks_is_rejected() {
    for n in 0..4u32 {
        assert_eq!(Raidz2Config::new(four_tb(), n).err(), Some(ConfigError::InvalidConfiguration));
    }
    assert!(Raidz2Config::new(four_tb(), 4).is_ok());
}

#[test]
fn usable_is_raw_less_two_disks() {
    for d in catalog() {
        for n in 4..=20u32 {
            let c = Raidz2Config::new(d, n).unwrap();
            assert_eq!(c.usable_storage_tb(), c.raw_storage_tb() - 2 * d.size as u128);
            assert!(c.usable_storage_tb() < c.raw_storage_tb());
        }
    }
}

#[test]
fn metrics_are_repeatable() {
    let c = Raidz2Config::new(Disk { size: 300, cost: 150200 }, 9).unwrap();
    assert_eq!(c.raw_storage_tb(), c.raw_storage_tb());
    assert_eq!(c.usable_storage_tb(), c.usable_storage_tb());
    assert_eq!(c.total_cost(), c.total_cost());
    assert_eq!(c.cost_per_usable_tb(), c.cost_per_usable_tb());
    assert_eq!(c.raw_storage_tb(), 2700);
    assert_eq!(c.usable_storage_tb(), 2100);
    assert_eq!(c.total_cost(), 1351800);
}

#[test]
fn cost_per_tb_rounds_to_nearest_cent() {
    // 4 disks of 3 TB at 10.00: 40.00 over 6 TB is 6.666..., over 12 TB 3.333...
    let c = Raidz2Config::new(Disk { size: 300, cost: 1000 }, 4).unwrap();
    assert_eq!(c.cost_per_usable_tb(), Some(667));
    assert_eq!(c.cost_per_raw_tb(), Some(333));
}

#[test]
fn zero_size_disk_has_no_price_per_tb() {
    let c = Raidz2Config::new(Disk { size: 0, cost: 5000 }, 5).unwrap();
    assert_eq!(c.cost_per_usable_tb(), None);
    assert_eq!(c.cost_per_raw_tb(), None);
    assert_eq!(c.total_cost(), 25000);
}

#[test]
fn band_around_sixteen_tb_with_one_disk_type() {
    let r = find_configurations(1600, &[four_tb()], 20);
    assert_eq!(r.len(), 1);
    assert_eq!(r[0].disk(), four_tb());
    assert_eq!(r[0].num_disks(), 6);
    assert_eq!(r[0].usable_storage_tb(), 1600);
    let five = Raidz2Config::new(four_tb(), 5).unwrap();
    assert_eq!(five.usable_storage_tb(), 1200);
    assert!(r.iter().all(|c| c.num_disks() != 5));
}

#[test]
fn band_bounds_are_inclusive() {
    // 1280 and 1920 are the edges of the band round 1600 at 20 percent.
    let d = Disk { size: 320, cost: 100 };
    let r = find_configurations(1600, &[d], 20);
    let counts: Vec<u32> = r.iter().map(|c| c.num_disks()).collect();
    assert_eq!(counts, vec![6, 7, 8]);
    let d = Disk { size: 640, cost: 100 };
    let r = find_configurations(1600, &[d], 20);
    let counts: Vec<u32> = r.iter().map(|c| c.num_disks()).collect();
    assert_eq!(counts, vec![4, 5]);
}

#[test]
fn search_is_sound_and_complete_on_the_catalog() {
    let disks = catalog();
    let target: i64 = 1600;
    let r = find_configurations(target, &disks, 20);
    let mut expected: Vec<(u64, u32)> = Vec::new();
    for d in &disks {
        for n in 4..=20u32 {
            let usable = d.size as i128 * (n as i128 - 2);
            if 100 * usable >= target as i128 * 80 && 100 * usable <= target as i128 * 120 {
                expected.push((d.size, n));
            }
        }
    }
    let got: Vec<(u64, u32)> = r.iter().map(|c| (c.disk().size, c.num_disks())).collect();
    assert_eq!(got, expected);
    assert_eq!(
        got,
        vec![(200, 9), (200, 10), (200, 11), (300, 7), (300, 8), (400, 6), (600, 5), (800, 4)]
    );
    for c in &r {
        let u = c.usable_storage_tb();
        assert!(u * 100 >= 1600 * 80 && u * 100 <= 1600 * 120);
    }
}

#[test]
fn far_target_gives_nothing() {
    let r = find_configurations(100_000_000, &catalog(), 20);
    assert!(r.is_empty());
}

#[test]
fn negative_target_gives_nothing() {
    let r = find_configurations(-1600, &catalog(), 20);
    assert!(r.is_empty());
}

#[test]
fn empty_catalog_gives_nothing() {
    let r = find_configurations(1600, &[], 20);
    assert!(r.is_empty());
}

#[test]
fn wide_band_takes_every_count() {
    // At 100 percent the lower bound is zero and the upper bound twice the target.
    let r = find_configurations(100_000, &[four_tb()], 100);
    assert_eq!(r.len(), 17);
    assert_eq!(r[0].num_disks(), 4);
    assert_eq!(r[16].num_disks(), 20);
}

#[test]
fn search_with_other_count_bounds() {
    let r = find_configurations_between(1600, &[four_tb()], 50, 4, 8);
    let counts: Vec<u32> = r.iter().map(|c| c.num_disks()).collect();
    assert_eq!(counts, vec![4, 5, 6, 7, 8]);
    let r = find_configurations_between(1600, &[four_tb()], 50, 9, 8);
    assert!(r.is_empty());
}

#[test]
fn ranking_is_by_cost_and_stable() {
    let disks = catalog();
    let r = find_configurations(1600, &disks, 20);
    let sorted = sort_by_cost(&r);
    let costs: Vec<u128> = sorted.iter().map(|c| c.total_cost()).collect();
    assert_eq!(costs, vec![790800, 931200, 1015200, 1025000, 1051400, 1128000, 1201600, 1240800]);
    let cheap = Disk { size: 100, cost: 10 };
    let equal_a = Raidz2Config::new(Disk { size: 100, cost: 30 }, 4).unwrap();
    let equal_b = Raidz2Config::new(Disk { size: 200, cost: 20 }, 6).unwrap();
    let first = Raidz2Config::new(cheap, 5).unwrap();
    let sorted = sort_by_cost(&vec![equal_a, equal_b, first]);
    let got: Vec<(u64, u32)> = sorted.iter().map(|c| (c.disk().size, c.num_disks())).collect();
    assert_eq!(got, vec![(100, 5), (100, 4), (200, 6)]);
    let sorted = sort_by_cost(&vec![equal_b, first, equal_a]);
    let got: Vec<(u64, u32)> = sorted.iter().map(|c| (c.disk().size, c.num_disks())).collect();
    assert_eq!(got, vec![(100, 5), (200, 6), (100, 4)]);
}

#[test]
fn ranking_empty_list() {
    assert!(sort_by_cost(&Vec::new()).is_empty());
}
