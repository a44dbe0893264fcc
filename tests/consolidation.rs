use exonum::consolidation::{agreed_value, max_faulty};

#[test]
fn faulty_bound() {
    assert_eq!(max_faulty(0), 0);
    assert_eq!(max_faulty(1), 0);
    assert_eq!(max_faulty(3), 0);
    assert_eq!(max_faulty(4), 1);
    assert_eq!(max_faulty(7), 2);
    assert_eq!(max_faulty(10), 3);
}

#[test]
fn four_submitters_in_order() {
    let f = max_faulty(4);
    let (t0, t1, t2, t3) = (1_000u64, 1_010u64, 1_020u64, 1_030u64);
    assert_eq!(agreed_value(&vec![], f), None);
    assert_eq!(agreed_value(&vec![t0], f), None);
    assert_eq!(agreed_value(&vec![t0, t1], f), None);
    assert_eq!(agreed_value(&vec![t0, t1, t2], f), Some(t1));
    assert_eq!(agreed_value(&vec![t0, t1, t2, t3], f), Some(t2));
}

#[test]
fn seven_submitters_any_order() {
    let f = max_faulty(7);
    assert_eq!(agreed_value(&vec![50, 10, 40, 20], f), None);
    assert_eq!(agreed_value(&vec![50, 10, 40, 20, 30], f), Some(30));
    assert_eq!(agreed_value(&vec![50, 10, 40, 20, 30, 70, 60], f), Some(50));
}

#[test]
fn repeated_values_count_each_time() {
    assert_eq!(agreed_value(&vec![5, 5, 5], 1), Some(5));
    assert_eq!(agreed_value(&vec![9, 9, 1], 1), Some(9));
    assert_eq!(agreed_value(&vec![u64::MAX, 0, 0], 1), Some(0));
}

#[test]
fn single_submitter_agrees_with_itself() {
    assert_eq!(agreed_value(&vec![42], max_faulty(1)), Some(42));
}

fn expected_agreed(times: &[Option<u64>]) -> Option<u64> {
    let f = (times.len() - 1) / 3;
    let mut present: Vec<u64> = times.iter().filter_map(|t| *t).collect();
    if present.len() <= 2 * f {
        return None;
    }
    present.sort_by(|a, b| b.cmp(a));
    Some(present[f])
}

fn submitted(times: &[Option<u64>]) -> Vec<u64> {
    times.iter().filter_map(|t| *t).collect()
}

#[test]
fn test_exonum_time_service_with_3_validators() {
    let f = max_faulty(3);
    let time0 = 1_600_000_000u64;
    let time1 = time0 + 10;
    let time2 = time1 + 10;
    assert_eq!(agreed_value(&vec![], f), None);
    assert_eq!(agreed_value(&vec![time0], f), Some(time0));
    assert_eq!(agreed_value(&vec![time0, time1], f), Some(time1));
    assert_eq!(agreed_value(&vec![time0, time1, time2], f), Some(time2));
}

#[test]
fn test_exonum_time_service_with_4_validators() {
    let f = max_faulty(4);
    let time0 = 1_600_000_000u64;
    let time1 = time0 + 10;
    let time2 = time1 + 10;
    let time3 = time2 + 10;
    assert_eq!(agreed_value(&vec![], f), None);
    assert_eq!(agreed_value(&vec![time0], f), None);
    assert_eq!(agreed_value(&vec![time0, time1], f), None);
    assert_eq!(agreed_value(&vec![time0, time1, time2], f), Some(time1));
    assert_eq!(agreed_value(&vec![time0, time1, time2, time3], f), Some(time2));
}

#[test]
fn test_exonum_time_service_with_7_validators() {
    let mut times = vec![None; 7];
    let f = max_faulty(times.len());
    assert_eq!(agreed_value(&submitted(&times), f), None);
    let mut time = 1_600_000_000u64;
    for i in 0..7 {
        times[i] = Some(time);
        assert_eq!(agreed_value(&submitted(&times), f), expected_agreed(&times));
        time += 10;
    }
    assert_eq!(agreed_value(&submitted(&times), f), Some(1_600_000_000 + 40));
}
