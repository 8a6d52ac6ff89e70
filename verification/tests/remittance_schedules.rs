use remitwise::address::Address;
use remitwise::remittance_split::state::{RemittanceSplit, MAX_SCHEDULES_PER_OWNER, MIN_SCHEDULE_INTERVAL};
use remitwise::remittance_split::types::{Allocation, Category, RemittanceSplitError};

fn addr(n: u64) -> Address {
    Address::account(n, 0, 0, 0)
}

const OWNER: u64 = 1;
const TOKEN: u64 = 2;

/// A split initialized by owner 1 at time 1000 with the given percentages.
fn setup_split(s: u32, g: u32, b: u32, i: u32) -> RemittanceSplit {
    let mut c = RemittanceSplit::new();
    assert_eq!(c.initialize_split(addr(OWNER), 0, addr(TOKEN), s, g, b, i, 1_000), Ok(true));
    c
}

fn schedule(c: &mut RemittanceSplit, amount: i128, next_due: u64, interval: u64, now: u64) -> u32 {
    c.create_remittance_schedule(addr(OWNER), amount, next_due, interval, now).unwrap()
}

fn split_expected(c: &RemittanceSplit, total: i128) -> [i128; 4] {
    let v = c.calculate_split(total).unwrap();
    [v[0], v[1], v[2], v[3]]
}

#[test]
fn test_execute_due_remittance_schedules_basic() {
    let mut c = setup_split(50, 30, 15, 5);
    assert_eq!(schedule(&mut c, 1_000, 3_000, 0, 1_000), 1);
    let executed = c.execute_due_remittance_schedules(3_500);
    assert_eq!(executed, vec![1]);
    let s = c.get_remittance_schedule(1).unwrap();
    assert!(!s.active);
    assert_eq!(s.last_executed, Some(3_500));
}

#[test]
fn test_execute_recurring_remittance_schedule() {
    let mut c = setup_split(50, 30, 15, 5);
    assert_eq!(schedule(&mut c, 1_000, 3_000, 86_400, 1_000), 1);
    let executed = c.execute_due_remittance_schedules(3_500);
    assert_eq!(executed, vec![1]);
    let s = c.get_remittance_schedule(1).unwrap();
    assert!(s.active);
    assert_eq!(s.next_due, 3_000 + 86_400);
    assert_eq!(s.last_executed, Some(3_500));
    assert_eq!(s.missed_count, 0);
}

#[test]
fn test_execute_missed_remittance_schedules() {
    let mut c = setup_split(50, 30, 15, 5);
    assert_eq!(schedule(&mut c, 500, 3_000, 86_400, 1_000), 1);
    let now = 3_000 + 86_400 * 3 + 100;
    let executed = c.execute_due_remittance_schedules(now);
    assert_eq!(executed.len(), 1);
    let s = c.get_remittance_schedule(1).unwrap();
    assert_eq!(s.missed_count, 3);
    assert!(s.next_due > 3_000 + 86_400 * 3);
    assert_eq!(s.last_executed, Some(now));
}

#[test]
fn test_execute_idempotent_oneshot() {
    let mut c = setup_split(50, 30, 15, 5);
    assert_eq!(schedule(&mut c, 750, 3_000, 0, 1_000), 1);
    assert_eq!(c.execute_due_remittance_schedules(3_500), vec![1]);
    assert_eq!(c.execute_due_remittance_schedules(3_500).len(), 0);
    let s = c.get_remittance_schedule(1).unwrap();
    assert!(!s.active);
    assert_eq!(s.last_executed, Some(3_500));
}

#[test]
fn test_execute_idempotent_recurring() {
    let mut c = setup_split(50, 30, 15, 5);
    assert_eq!(schedule(&mut c, 300, 3_000, 86_400, 1_000), 1);
    assert_eq!(c.execute_due_remittance_schedules(3_500).len(), 1);
    let first_next_due = c.get_remittance_schedule(1).unwrap().next_due;
    assert_eq!(c.execute_due_remittance_schedules(3_500).len(), 0);
    assert_eq!(c.get_remittance_schedule(1).unwrap().next_due, first_next_due);
}

#[test]
fn test_execute_skips_inactive_schedules() {
    let mut c = setup_split(50, 30, 15, 5);
    assert_eq!(schedule(&mut c, 200, 3_000, 0, 1_000), 1);
    c.cancel_remittance_schedule(addr(OWNER), 1).unwrap();
    assert_eq!(c.execute_due_remittance_schedules(3_500).len(), 0);
}

#[test]
fn test_execute_skips_not_yet_due() {
    let mut c = setup_split(50, 30, 15, 5);
    assert_eq!(schedule(&mut c, 400, 3_000, 0, 1_000), 1);
    assert_eq!(c.execute_due_remittance_schedules(2_500).len(), 0);
    let s = c.get_remittance_schedule(1).unwrap();
    assert!(s.active);
    assert_eq!(s.last_executed, None);
}

#[test]
fn test_execute_exactly_equal_next_due() {
    let mut c = setup_split(50, 30, 15, 5);
    assert_eq!(schedule(&mut c, 600, 3_000, 0, 1_000), 1);
    assert_eq!(c.execute_due_remittance_schedules(3_000).len(), 1);
}

#[test]
fn test_execute_empty_schedule_set() {
    let mut c = setup_split(50, 30, 15, 5);
    assert_eq!(c.execute_due_remittance_schedules(5_000).len(), 0);
}

#[test]
fn test_execute_all_inactive_set() {
    let mut c = setup_split(50, 30, 15, 5);
    for i in 1..=3u32 {
        let id = schedule(&mut c, 100 * i as i128, 3_000 + i as u64 * 1000, 0, 1_000);
        assert!(id > 0);
        c.cancel_remittance_schedule(addr(OWNER), i).unwrap();
    }
    assert_eq!(c.execute_due_remittance_schedules(6_000).len(), 0);
}

#[test]
fn test_execute_paused_contract_returns_empty() {
    let mut c = setup_split(50, 30, 15, 5);
    assert_eq!(schedule(&mut c, 500, 3_000, 0, 1_000), 1);
    c.pause(addr(OWNER)).unwrap();
    assert_eq!(c.execute_due_remittance_schedules(3_500).len(), 0);
    let s = c.get_remittance_schedule(1).unwrap();
    assert!(s.active);
    assert_eq!(s.last_executed, None);
}

#[test]
fn test_execute_due_remittance_schedules_fanout_dust_conservation() {
    let mut c = setup_split(37, 33, 20, 10);
    let now = 5_000u64;
    let amounts: [i128; 6] = [101, 250, 999, 1_003, 10_007, 77];
    let interval = MIN_SCHEDULE_INTERVAL;
    let mut ids = Vec::new();
    ids.push(schedule(&mut c, amounts[0], now, 0, 1_000));
    ids.push(schedule(&mut c, amounts[1], now, 0, 1_000));
    ids.push(schedule(&mut c, amounts[2], now, interval, 1_000));
    ids.push(schedule(&mut c, amounts[3], now, interval, 1_000));
    ids.push(schedule(&mut c, amounts[4], now, interval, 1_000));
    ids.push(schedule(&mut c, amounts[5], now, 0, 1_000));
    let executed = c.execute_due_remittance_schedules(now);
    assert_eq!(executed.len(), 6);
    let mut seen = [false; 7];
    for id in ids.iter() {
        assert!(*id as usize <= 6);
    }
    for id in executed.iter() {
        assert!((*id as usize) <= 6);
        assert!(!seen[*id as usize]);
        seen[*id as usize] = true;
    }
    for expected in 1..=6usize {
        assert!(seen[expected]);
    }
    let mut total_in: i128 = 0;
    let mut total_out: [i128; 4] = [0, 0, 0, 0];
    for i in 1..=6u32 {
        let sched = c.get_remittance_schedule(i).unwrap();
        assert_eq!(sched.last_executed, Some(now));
        let e = split_expected(&c, sched.amount);
        assert_eq!(e[0] + e[1] + e[2] + e[3], sched.amount);
        total_in = total_in.checked_add(sched.amount).unwrap();
        for k in 0..4 {
            total_out[k] = total_out[k].checked_add(e[k]).unwrap();
        }
        if sched.interval == 0 {
            assert!(!sched.active);
        } else {
            assert!(sched.active);
            assert_eq!(sched.next_due, now + interval);
            assert_eq!(sched.missed_count, 0);
        }
    }
    assert_eq!(total_in, total_out[0] + total_out[1] + total_out[2] + total_out[3]);
    assert_eq!(c.execute_due_remittance_schedules(now).len(), 0);
    for i in 1..=6u32 {
        let sched2 = c.get_remittance_schedule(i).unwrap();
        assert_eq!(sched2.last_executed, Some(now));
        if sched2.interval == 0 {
            assert!(!sched2.active);
        } else {
            assert_eq!(sched2.next_due, now + interval);
        }
    }
}

#[test]
fn test_execute_mixed_due_not_due() {
    let mut c = setup_split(50, 30, 15, 5);
    assert_eq!(schedule(&mut c, 100, 2_000, 0, 1_000), 1);
    assert_eq!(schedule(&mut c, 200, 4_000, 0, 1_000), 2);
    assert_eq!(c.execute_due_remittance_schedules(3_000), vec![1]);
    assert!(!c.get_remittance_schedule(1).unwrap().active);
    assert!(c.get_remittance_schedule(2).unwrap().active);
}

#[test]
fn test_get_schedules_paginated_full_scale_cursor_monotonicity() {
    let mut c = setup_split(50, 30, 15, 5);
    let owner = addr(OWNER);
    let other_owner = addr(50);
    let next_due = 1_000 + 86_400;
    let interval = MIN_SCHEDULE_INTERVAL;
    let first_id = schedule(&mut c, 1_000, next_due, interval, 1_000);
    assert_eq!(first_id, 1);
    let single_page = c.get_schedules_paginated(owner, 0, 1);
    assert_eq!(single_page.count, 1);
    assert_eq!(single_page.items.len(), 1);
    assert_eq!(single_page.items[0].id, first_id);
    assert_eq!(single_page.next_cursor, 0);
    for i in 1..MAX_SCHEDULES_PER_OWNER {
        let id = schedule(&mut c, 1_000, next_due + i as u64, interval, 1_000);
        assert_eq!(id, i + 1);
    }
    let isolated_page = c.get_schedules_paginated(other_owner, 0, 50);
    assert_eq!(isolated_page.count, 0);
    assert_eq!(isolated_page.items.len(), 0);
    assert_eq!(isolated_page.next_cursor, 0);
    let clamped_page = c.get_schedules_paginated(owner, 0, u32::MAX);
    assert_eq!(clamped_page.count, MAX_SCHEDULES_PER_OWNER);
    assert_eq!(clamped_page.items.len(), MAX_SCHEDULES_PER_OWNER as usize);
    assert_eq!(clamped_page.next_cursor, 0);
    let mut last_id = 0u32;
    for s in clamped_page.items.iter() {
        assert!(s.id > last_id);
        last_id = s.id;
    }
    let mut seen = [false; (MAX_SCHEDULES_PER_OWNER as usize) + 1];
    let mut seen_count = 0u32;
    let mut cursor = 0u32;
    let mut pages = 0u32;
    let page_limit = 7u32;
    loop {
        let page = c.get_schedules_paginated(owner, cursor, page_limit);
        assert!(page.count <= page_limit);
        assert_eq!(page.count as usize, page.items.len());
        let mut previous_id = 0u32;
        for s in page.items.iter() {
            assert!(s.id > previous_id);
            assert!(!seen[s.id as usize]);
            seen[s.id as usize] = true;
            seen_count += 1;
            previous_id = s.id;
        }
        pages += 1;
        if page.next_cursor == 0 {
            break;
        }
        assert!(page.next_cursor > cursor);
        cursor = page.next_cursor;
    }
    assert_eq!(pages, 8);
    assert_eq!(seen_count, MAX_SCHEDULES_PER_OWNER);
    for id in 1..=MAX_SCHEDULES_PER_OWNER {
        assert!(seen[id as usize]);
    }
    let beyond_end = c.get_schedules_paginated(owner, MAX_SCHEDULES_PER_OWNER, page_limit);
    assert_eq!(beyond_end.count, 0);
    assert_eq!(beyond_end.items.len(), 0);
    assert_eq!(beyond_end.next_cursor, 0);
}

#[test]
fn test_get_remittance_schedules_paginated_uses_schedule_id_cursor() {
    let mut c = setup_split(50, 30, 15, 5);
    let owner = addr(OWNER);
    let next_due = 1_000 + 86_400;
    for i in 0..5u32 {
        assert_eq!(schedule(&mut c, 1_000, next_due + i as u64, MIN_SCHEDULE_INTERVAL, 1_000), i + 1);
    }
    let page1 = c.get_remittance_schedules_paginated(owner, 0, 2);
    assert_eq!(page1.count, 2);
    assert_eq!(page1.items[0].id, 1);
    assert_eq!(page1.items[1].id, 2);
    assert_eq!(page1.next_cursor, Some(2));
    let page2 = c.get_remittance_schedules_paginated(owner, 2, 2);
    assert_eq!(page2.count, 2);
    assert_eq!(page2.items[0].id, 3);
    assert_eq!(page2.items[1].id, 4);
    assert_eq!(page2.next_cursor, Some(4));
    let page3 = c.get_remittance_schedules_paginated(owner, 4, 2);
    assert_eq!(page3.count, 1);
    assert_eq!(page3.items[0].id, 5);
    assert_eq!(page3.next_cursor, None);
}

#[test]
fn test_get_remittance_schedules_paginated_owner_isolation_and_tail() {
    // Only the split owner may create schedules; another address gets none.
    let mut c = setup_split(50, 30, 15, 5);
    let owner = addr(OWNER);
    let other_owner = addr(60);
    let next_due = 1_000 + 86_400;
    let interval = MIN_SCHEDULE_INTERVAL;
    let owner_id = schedule(&mut c, 1_000, next_due, interval, 1_000);
    assert_eq!(
        c.create_remittance_schedule(other_owner, 1_000, next_due + 1, interval, 1_000),
        Err(RemittanceSplitError::Unauthorized)
    );
    let owner_page = c.get_remittance_schedules_paginated(owner, 0, 10);
    assert_eq!(owner_page.count, 1);
    assert_eq!(owner_page.items[0].id, owner_id);
    assert_eq!(owner_page.next_cursor, None);
    let other_page = c.get_remittance_schedules_paginated(other_owner, 0, 10);
    assert_eq!(other_page.count, 0);
    assert_eq!(other_page.next_cursor, None);
    let beyond_tail = c.get_remittance_schedules_paginated(owner, owner_id, 10);
    assert_eq!(beyond_tail.count, 0);
    assert_eq!(beyond_tail.items.len(), 0);
    assert_eq!(beyond_tail.next_cursor, None);
}

fn assert_canonical_order(allocs: &Vec<Allocation>) {
    assert_eq!(allocs.len(), 4);
    assert_eq!(allocs[0].category, Category::Spending);
    assert_eq!(allocs[1].category, Category::Savings);
    assert_eq!(allocs[2].category, Category::Bills);
    assert_eq!(allocs[3].category, Category::Insurance);
}

fn assert_conservation(allocs: &Vec<Allocation>, total: i128) {
    let sum: i128 = allocs.iter().map(|a| a.amount).sum();
    assert_eq!(sum, total);
}

#[test]
fn test_get_split_allocations_uninitialized_uses_default() {
    let c = RemittanceSplit::new();
    let allocs = c.get_split_allocations(1_000).unwrap();
    assert_canonical_order(&allocs);
    assert_conservation(&allocs, 1_000);
    assert_eq!(allocs[0].amount, 500);
    assert_eq!(allocs[1].amount, 300);
    assert_eq!(allocs[2].amount, 150);
    assert_eq!(allocs[3].amount, 50);
}

#[test]
fn test_get_split_allocations_uninitialized_non_round_amount() {
    let c = RemittanceSplit::new();
    let allocs = c.get_split_allocations(7).unwrap();
    assert_canonical_order(&allocs);
    assert_conservation(&allocs, 7);
}

#[test]
fn test_get_split_allocations_single_100_percent_spending() {
    let c = setup_split(100, 0, 0, 0);
    let allocs = c.get_split_allocations(500).unwrap();
    assert_canonical_order(&allocs);
    assert_conservation(&allocs, 500);
    assert_eq!(allocs[0].amount, 500);
    assert_eq!(allocs[1].amount, 0);
    assert_eq!(allocs[2].amount, 0);
    assert_eq!(allocs[3].amount, 0);
}

#[test]
fn test_get_split_allocations_single_100_percent_insurance() {
    let c = setup_split(0, 0, 0, 100);
    let allocs = c.get_split_allocations(333).unwrap();
    assert_canonical_order(&allocs);
    assert_conservation(&allocs, 333);
    assert_eq!(allocs[0].amount, 0);
    assert_eq!(allocs[1].amount, 0);
    assert_eq!(allocs[2].amount, 0);
    assert_eq!(allocs[3].amount, 333);
}

#[test]
fn test_get_split_allocations_zero_amount_returns_error() {
    let c = RemittanceSplit::new();
    assert_eq!(c.get_split_allocations(0), Err(RemittanceSplitError::InvalidAmount));
}

#[test]
fn test_get_split_allocations_negative_amount_returns_error() {
    let c = RemittanceSplit::new();
    assert_eq!(c.get_split_allocations(-1), Err(RemittanceSplitError::InvalidAmount));
}

#[test]
fn test_get_split_allocations_amount_one_conservation() {
    let c = setup_split(25, 25, 25, 25);
    let allocs = c.get_split_allocations(1).unwrap();
    assert_canonical_order(&allocs);
    assert_conservation(&allocs, 1);
    assert_eq!(allocs[3].amount, 1);
}

#[test]
fn test_get_split_allocations_ordering_is_deterministic() {
    let c = setup_split(40, 30, 20, 10);
    let allocs1 = c.get_split_allocations(1_000).unwrap();
    let allocs2 = c.get_split_allocations(1_000).unwrap();
    assert_eq!(allocs1.len(), allocs2.len());
    for i in 0..allocs1.len() {
        assert_eq!(allocs1[i].category, allocs2[i].category);
        assert_eq!(allocs1[i].amount, allocs2[i].amount);
    }
}

#[test]
fn test_get_split_allocations_order_matches_get_split() {
    let c = setup_split(40, 30, 20, 10);
    let total: i128 = 1_000;
    let split = c.get_split();
    let allocs = c.get_split_allocations(total).unwrap();
    for i in 0..3usize {
        let pct = split[i] as i128;
        assert_eq!(allocs[i].amount, total * pct / 100);
    }
    assert_conservation(&allocs, total);
}

#[test]
fn test_get_split_allocations_large_amount_default_config() {
    let c = RemittanceSplit::new();
    let total: i128 = i128::MAX / 100;
    let allocs = c.get_split_allocations(total).unwrap();
    assert_canonical_order(&allocs);
    assert_conservation(&allocs, total);
}

#[test]
fn test_get_split_allocations_large_amount_single_slot() {
    let c = setup_split(100, 0, 0, 0);
    let total: i128 = i128::MAX / 100;
    let allocs = c.get_split_allocations(total).unwrap();
    assert_canonical_order(&allocs);
    assert_conservation(&allocs, total);
    assert_eq!(allocs[0].amount, total);
    assert_eq!(allocs[3].amount, 0);
}

#[test]
fn test_get_split_allocations_percentages_across_all_categories() {
    let c = setup_split(33, 33, 33, 1);
    let allocs = c.get_split_allocations(10).unwrap();
    assert_canonical_order(&allocs);
    assert_conservation(&allocs, 10);
    assert_eq!(allocs[0].amount, 3);
    assert_eq!(allocs[1].amount, 3);
    assert_eq!(allocs[2].amount, 3);
    assert_eq!(allocs[3].amount, 1);
}

#[test]
fn test_double_init_fails() {
    let mut c = RemittanceSplit::new();
    let owner = addr(OWNER);
    assert_eq!(c.initialize_split(owner, 0, addr(TOKEN), 40, 30, 20, 10, 1_000), Ok(true));
    assert_eq!(
        c.initialize_split(owner, 1, addr(TOKEN), 50, 25, 15, 10, 1_000),
        Err(RemittanceSplitError::AlreadyInitialized)
    );
}

#[test]
fn test_not_initialized_fails() {
    let mut c = RemittanceSplit::new();
    assert!(c.get_config().is_none());
    assert_eq!(c.set_pause_admin(addr(OWNER), addr(3)), Err(RemittanceSplitError::NotInitialized));
}

#[test]
fn test_initialize_split_percentage_out_of_range() {
    let mut c = RemittanceSplit::new();
    assert_eq!(
        c.initialize_split(addr(OWNER), 0, addr(TOKEN), 10_001, 0, 0, 0, 1_000),
        Err(RemittanceSplitError::PercentageOutOfRange)
    );
}

#[test]
fn test_initialize_split_percentages_invalid_sum() {
    let mut c = RemittanceSplit::new();
    assert_eq!(
        c.initialize_split(addr(OWNER), 0, addr(TOKEN), 40, 30, 20, 9, 1_000),
        Err(RemittanceSplitError::PercentagesDoNotSumTo100)
    );
}
