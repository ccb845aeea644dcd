use form_loadtester::crtsh::Scraper;
use form_loadtester::engine::{classify, summary, Action, Engine, Outcome};

#[test]
fn summary_line_is_exact() {
    assert_eq!(summary(30, 4, 7), "30 requests sent, 4 failed, 4 avg req/s");
    assert_eq!(summary(5, 0, 0), "5 requests sent, 0 failed, 0 avg req/s");
    assert_eq!(summary(0, 0, 10), "0 requests sent, 0 failed, 0 avg req/s");
}

#[test]
fn classify_counts_only_2xx_as_success() {
    assert_eq!(classify(Some(200)), Outcome::Succeeded);
    assert_eq!(classify(Some(204)), Outcome::Succeeded);
    assert_eq!(classify(Some(299)), Outcome::Succeeded);
    assert_eq!(classify(Some(199)), Outcome::Failed);
    assert_eq!(classify(Some(300)), Outcome::Failed);
    assert_eq!(classify(Some(404)), Outcome::Failed);
    assert_eq!(classify(Some(500)), Outcome::Failed);
    assert_eq!(classify(None), Outcome::Failed);
}

#[test]
fn never_more_in_flight_than_allowed() {
    for k in 1..5usize {
        let mut engine = Engine::new(k, 0);
        for turn in 0..40u64 {
            let action = engine.next_action(0);
            assert!(engine.in_flight() <= k);
            if (turn as usize) < k {
                assert_eq!(action, Action::Spawn);
            } else {
                assert_eq!(action, Action::Wait);
            }
        }
        assert_eq!(engine.in_flight(), k);
        assert!(engine.complete(Outcome::Succeeded));
        assert_eq!(engine.in_flight(), k - 1);
        assert_eq!(engine.next_action(0), Action::Spawn);
        assert_eq!(engine.next_action(0), Action::Wait);
    }
}

#[test]
fn no_request_after_cancellation() {
    let mut engine = Engine::new(3, 100);
    assert_eq!(engine.next_action(100), Action::Spawn);
    assert_eq!(engine.next_action(101), Action::Spawn);
    assert!(!engine.is_cancelled());
    engine.cancel();
    assert!(engine.is_cancelled());
    assert_eq!(engine.next_action(102), Action::Finish);
    assert_eq!(engine.in_flight(), 2);
    assert!(engine.complete(Outcome::Succeeded));
    assert!(engine.complete(Outcome::Failed));
    assert!(!engine.complete(Outcome::Failed));
    assert_eq!(engine.sent(), 1);
    assert_eq!(engine.failed(), 1);
    assert_eq!(engine.in_flight(), 0);
    assert_eq!(engine.next_action(500), Action::Finish);
    assert_eq!(engine.summary(1), "1 requests sent, 1 failed, 1 avg req/s");
}

#[test]
fn a_summary_is_due_after_ten_seconds() {
    let mut engine = Engine::new(10, 100);
    assert_eq!(engine.next_action(110), Action::Spawn);
    assert_eq!(engine.next_action(111), Action::ReportAndSpawn);
    assert_eq!(engine.next_action(121), Action::Spawn);
    assert_eq!(engine.next_action(122), Action::ReportAndSpawn);
    assert_eq!(engine.next_action(50), Action::Spawn);
}

#[test]
fn no_room_means_waiting_forever() {
    let mut engine = Engine::new(0, 0);
    assert_eq!(engine.next_action(0), Action::Wait);
    assert_eq!(engine.next_action(1000), Action::Wait);
    assert!(!engine.complete(Outcome::Succeeded));
    assert_eq!(engine.sent(), 0);
}

#[test]
fn a_new_scraper_has_no_records() {
    let mut scraper = Scraper::new("example.org");
    assert_eq!(scraper.domain(), "example.org");
    assert!(scraper.records().is_empty());
    scraper.set_records(vec!["a.example.org".to_string()]);
    assert_eq!(scraper.records(), &vec!["a.example.org".to_string()]);
    assert_eq!(scraper.domain(), "example.org");
}
