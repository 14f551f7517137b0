use randstat::RandStat;
use randstat::StatInit;

#[test]
fn can_create_default() {
    let mut rs: RandStat = Default::default();
    for _ in 0..1000 {
        let i: u8 = rs.next().unwrap();
        assert_eq!(i, 0);
    }
}

#[test]
fn can_create_single_value() {
    let init = vec![StatInit {
        percentage: 100,
        value: 0xff,
    }];
    let mut rs: RandStat = RandStat::new(&init).unwrap();
    for _ in 0..1000 {
        let i: u8 = rs.next().unwrap();
        assert_eq!(i, 0xff);
    }
}

#[test]
fn can_create_multi_value() {
    let init = vec![
        StatInit {
            percentage: 10,
            value: 0x01,
        },
        StatInit {
            percentage: 10,
            value: 0x02,
        },
        StatInit {
            percentage: 10,
            value: 0x03,
        },
    ];
    let mut rs: RandStat = RandStat::new(&init).unwrap();
    let test_vec: Vec<u8> = vec![0x00, 0x01, 0x02, 0x03];
    for _ in 0..1000 {
        let i: u8 = rs.next().unwrap();
        assert!(test_vec.contains(&i));
    }
}

#[test]
fn empty_entries_sample_zero() {
    let init: Vec<StatInit> = Vec::new();
    let mut rs = RandStat::new(&init).unwrap();
    for _ in 0..1000 {
        assert_eq!(rs.next(), Some(0));
    }
}

#[test]
fn sample_with_reads_the_slot_of_the_draw() {
    let init = vec![
        StatInit { percentage: 1, value: 11 },
        StatInit { percentage: 98, value: 22 },
        StatInit { percentage: 1, value: 33 },
    ];
    let rs = RandStat::new(&init).unwrap();
    assert_eq!(rs.sample_with(0), 11);
    assert_eq!(rs.sample_with(1), 22);
    assert_eq!(rs.sample_with(98), 22);
    assert_eq!(rs.sample_with(99), 33);
}

#[test]
fn sample_with_wraps_large_draws() {
    let init = vec![
        StatInit { percentage: 1, value: 11 },
        StatInit { percentage: 98, value: 22 },
        StatInit { percentage: 1, value: 33 },
    ];
    let rs = RandStat::new(&init).unwrap();
    assert_eq!(rs.sample_with(100), 11);
    assert_eq!(rs.sample_with(199), 33);
    assert_eq!(rs.sample_with(12_345), 22);
    assert_eq!(rs.sample_with(usize::MAX), rs.sample_with(usize::MAX % 100));
    assert_eq!(rs.sample_with(usize::MAX - usize::MAX % 100), 11);
}

#[test]
fn sampling_never_ends_and_leaves_the_table_alone() {
    let init = vec![
        StatInit { percentage: 50, value: 1 },
        StatInit { percentage: 50, value: 2 },
    ];
    let mut rs = RandStat::new(&init).unwrap();
    let before: Vec<u8> = (0..100).map(|draw: usize| rs.sample_with(draw)).collect();
    for _ in 0..10_000 {
        assert!(rs.next().is_some());
    }
    let after: Vec<u8> = (0..100).map(|draw: usize| rs.sample_with(draw)).collect();
    assert_eq!(before, after);
}

#[test]
fn every_value_with_slots_is_drawn() {
    let init = vec![
        StatInit { percentage: 50, value: 1 },
        StatInit { percentage: 50, value: 2 },
    ];
    let mut rs = RandStat::new(&init).unwrap();
    let mut seen_one = false;
    let mut seen_two = false;
    for _ in 0..1000 {
        match rs.next() {
            Some(1) => seen_one = true,
            Some(2) => seen_two = true,
            other => panic!("{:?} is in no slot", other),
        }
    }
    assert!(seen_one && seen_two);
}

#[test]
fn even_split_is_drawn_evenly() {
    let init = vec![
        StatInit { percentage: 50, value: 0xa0 },
        StatInit { percentage: 50, value: 0xb0 },
    ];
    let mut rs = RandStat::new(&init).unwrap();
    let draws: u32 = 100_000;
    let mut hits: u32 = 0;
    for _ in 0..draws {
        if rs.next() == Some(0xa0) {
            hits += 1;
        }
    }
    let frequency: f64 = f64::from(hits) / f64::from(draws);
    assert!((frequency - 0.5).abs() < 0.02, "frequency {}", frequency);
}

#[test]
fn a_tenth_of_the_slots_is_drawn_a_tenth_of_the_time() {
    let init = vec![StatInit { percentage: 10, value: 1 }];
    let mut rs = RandStat::new(&init).unwrap();
    let draws: u32 = 100_000;
    let mut hits: u32 = 0;
    for _ in 0..draws {
        if rs.next() == Some(1) {
            hits += 1;
        }
    }
    let frequency: f64 = f64::from(hits) / f64::from(draws);
    assert!((frequency - 0.1).abs() < 0.02, "frequency {}", frequency);
}
