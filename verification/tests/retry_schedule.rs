use panda_monitor::retry::{run_retry, RetryPolicy, RetryResult, RetryStep};
use panda_monitor::schedule::{ip_report_due, startup_plan, tick_sleep};

#[test]
fn retry_exhaustion_counts_attempts_and_sleep() {
    let policy = RetryPolicy { max_attempts: 3, delay_secs: 2 };
    let outcomes: Vec<Option<u32>> = vec![None, None, None];
    match run_retry(&policy, &outcomes) {
        RetryResult::Exhausted { attempts, slept_secs } => {
            assert_eq!(attempts, 3);
            assert_eq!(slept_secs, 4); // (3 - 1) * 2
        },
        RetryResult::Succeeded { .. } => panic!("an all-failing operation must exhaust the policy"),
    }
}

#[test]
fn retry_success_after_k_failures() {
    let policy = RetryPolicy { max_attempts: 5, delay_secs: 2 };
    let outcomes: Vec<Option<u32>> = vec![None, None, Some(7), Some(9), None];
    match run_retry(&policy, &outcomes) {
        RetryResult::Succeeded { value, failures, slept_secs } => {
            assert_eq!(value, 7);
            assert_eq!(failures, 2);
            assert_eq!(slept_secs, 4); // 2 retries, 2 s each
        },
        RetryResult::Exhausted { .. } => panic!("the third attempt succeeds"),
    }
}

#[test]
fn retry_immediate_success_sleeps_nothing() {
    let policy = RetryPolicy { max_attempts: 3, delay_secs: 2 };
    let outcomes: Vec<Option<u32>> = vec![Some(1), None, None];
    match run_retry(&policy, &outcomes) {
        RetryResult::Succeeded { value, failures, slept_secs } => {
            assert_eq!(value, 1);
            assert_eq!(failures, 0);
            assert_eq!(slept_secs, 0);
        },
        RetryResult::Exhausted { .. } => panic!("the first attempt succeeds"),
    }
}

#[test]
fn on_failure_retries_until_last_attempt() {
    let policy = RetryPolicy { max_attempts: 3, delay_secs: 2 };
    assert_eq!(policy.on_failure(0), RetryStep::Retry { sleep_secs: 2 });
    assert_eq!(policy.on_failure(1), RetryStep::Retry { sleep_secs: 2 });
    assert_eq!(policy.on_failure(2), RetryStep::GiveUp { attempts: 3 });
}

#[test]
fn tick_sleep_waits_the_remainder() {
    assert_eq!(tick_sleep(1000, 250), 750);
    assert_eq!(tick_sleep(1000, 0), 1000);
    assert_eq!(tick_sleep(1000, 999), 1);
}

#[test]
fn tick_sleep_is_zero_after_an_overrun() {
    // a report slower than the tick starts the next round immediately,
    // so the period is the report duration, not a multiple of the tick
    assert_eq!(tick_sleep(1000, 1000), 0);
    assert_eq!(tick_sleep(1000, 2500), 0);
}

#[test]
fn startup_reports_ip_only_for_zero_host_interval() {
    let plan = startup_plan(0);
    assert!(plan.report_host);
    assert!(plan.report_ip);
    let plan = startup_plan(60);
    assert!(plan.report_host);
    assert!(!plan.report_ip);
}

#[test]
fn ip_report_due_on_whole_hour_multiples() {
    // zero interval means "only ever once", never due again
    assert!(!ip_report_due(0, 7200));
    // 2-hour interval: due exactly on multiples of 7200 s
    assert!(ip_report_due(2, 0));
    assert!(ip_report_due(2, 7200));
    assert!(ip_report_due(2, 14400));
    assert!(!ip_report_due(2, 7199));
    assert!(!ip_report_due(2, 7201));
}
