use pinscrape::engine::{Action, Engine, Phase, StopReason};

fn src(s: &str) -> Option<String> {
    Some(s.to_string())
}

#[test]
fn quota_two_end_to_end() {
    let mut e = Engine::new(Some(2), 1, 1000);
    assert_eq!(e.pending_action(), Action::ScrollAndExtract);
    let found = vec![
        src("https://i.pinimg.com/75x75_RS/a/A.jpg"),
        src("https://i.pinimg.com/300x/foo/B.jpg"),
        src("https://i.pinimg.com/300x/foo/B.jpg"),
        src("https://i.pinimg.com/640x/bar/C.jpg"),
    ];
    assert_eq!(e.on_extracted(&found), Action::Finish(StopReason::QuotaReached));
    assert_eq!(e.phase(), Phase::Finished(StopReason::QuotaReached));
    assert_eq!(
        e.into_resources(),
        vec![
            "https://i.pinimg.com/originals/foo/B.jpg".to_string(),
            "https://i.pinimg.com/originals/bar/C.jpg".to_string()
        ]
    );
}

#[test]
fn quota_three_stops_mid_iteration() {
    let mut e = Engine::new(Some(3), 5, 1000);
    let found = vec![src("/1x/a"), src("/1x/b"), src("/1x/c"), src("/1x/d"), src("/1x/e")];
    assert_eq!(e.on_extracted(&found), Action::Finish(StopReason::QuotaReached));
    assert_eq!(e.resource_count(), 3);
    assert_eq!(
        e.into_resources(),
        vec!["/originals/a".to_string(), "/originals/b".to_string(), "/originals/c".to_string()]
    );
}

#[test]
fn constant_height_ends_done_with_first_iteration() {
    let mut e = Engine::new(None, 5, 2000);
    let first = vec![src("/1x/a"), None, src("/1x/b")];
    assert_eq!(e.on_extracted(&first), Action::ReadHeight);
    assert_eq!(e.on_height(2000), Action::Finish(StopReason::Done));
    assert_eq!(e.into_resources(), vec!["/originals/a".to_string(), "/originals/b".to_string()]);
}

#[test]
fn zero_growth_then_same_height_is_done_not_stalled() {
    let mut e = Engine::new(None, 5, 2000);
    assert_eq!(e.on_extracted(&vec![src("/1x/a")]), Action::ReadHeight);
    assert_eq!(e.on_height(3000), Action::ScrollAndExtract);
    assert_eq!(e.on_extracted(&vec![src("/1x/a")]), Action::ReadHeight);
    assert_eq!(e.on_height(3000), Action::Finish(StopReason::Done));
    assert_eq!(e.resource_count(), 1);
}

#[test]
fn strict_policy_stops_at_first_stall() {
    let mut e = Engine::new(None, 1, 2000);
    assert_eq!(e.on_extracted(&vec![src("/1x/a")]), Action::ReadHeight);
    assert_eq!(e.on_height(2500), Action::ScrollAndExtract);
    assert_eq!(e.on_extracted(&vec![src("/1x/a")]), Action::Finish(StopReason::Stalled));
    assert_eq!(e.resource_count(), 1);
}

#[test]
fn four_stalls_then_growth_continue() {
    let mut e = Engine::new(None, 5, 0);
    let mut h: u64 = 0;
    for _ in 0..4 {
        assert_eq!(e.on_extracted(&vec![]), Action::ReadHeight);
        h += 100;
        assert_eq!(e.on_height(h), Action::ScrollAndExtract);
    }
    assert_eq!(e.on_extracted(&vec![src("/1x/a")]), Action::ReadHeight);
    h += 100;
    assert_eq!(e.on_height(h), Action::ScrollAndExtract);
    for _ in 0..4 {
        assert_eq!(e.on_extracted(&vec![src("/1x/a")]), Action::ReadHeight);
        h += 100;
        assert_eq!(e.on_height(h), Action::ScrollAndExtract);
    }
    assert_eq!(e.on_extracted(&vec![src("/1x/a")]), Action::Finish(StopReason::Stalled));
}

#[test]
fn five_stalls_terminate() {
    let mut e = Engine::new(None, 5, 0);
    let mut h: u64 = 0;
    for _ in 0..4 {
        assert_eq!(e.on_extracted(&vec![None]), Action::ReadHeight);
        h += 10;
        assert_eq!(e.on_height(h), Action::ScrollAndExtract);
    }
    assert_eq!(e.on_extracted(&vec![None]), Action::Finish(StopReason::Stalled));
    assert_eq!(e.phase(), Phase::Finished(StopReason::Stalled));
    assert_eq!(e.resource_count(), 0);
}

#[test]
fn quota_zero_accepts_nothing() {
    let e = Engine::new(Some(0), 5, 1000);
    assert_eq!(e.phase(), Phase::Finished(StopReason::QuotaReached));
    assert_eq!(e.pending_action(), Action::Finish(StopReason::QuotaReached));
    assert_eq!(e.resource_count(), 0);
    assert_eq!(e.into_resources(), Vec::<String>::new());
}

#[test]
fn offer_stops_at_quota_and_close_counts_growth() {
    let mut e = Engine::new(Some(2), 5, 1000);
    assert!(!e.offer(&src("https://h/75x75_RS/a.jpg")));
    assert!(!e.offer(&None));
    assert!(!e.offer(&src("/5x/a")));
    assert!(!e.offer(&src("/6x/a")));
    assert_eq!(e.resource_count(), 1);
    assert_eq!(e.close_extraction(), Action::ReadHeight);
    assert_eq!(e.pending_action(), Action::ReadHeight);
    assert_eq!(e.on_height(1500), Action::ScrollAndExtract);
    assert!(!e.offer(&src("/5x/a")));
    assert_eq!(e.close_extraction(), Action::ReadHeight);
    assert_eq!(e.on_height(1600), Action::ScrollAndExtract);
    assert!(e.offer(&src("/5x/b")));
    assert_eq!(e.pending_action(), Action::Finish(StopReason::QuotaReached));
    assert_eq!(e.into_resources(), vec!["/originals/a".to_string(), "/originals/b".to_string()]);
}

#[test]
fn repeated_link_in_one_scroll_is_kept_once() {
    let mut e = Engine::new(None, 1, 0);
    let found = vec![src("/1x/a"), src("/2x/a"), src("/1x/b"), src("/3x/a")];
    assert_eq!(e.on_extracted(&found), Action::ReadHeight);
    assert_eq!(e.into_resources(), vec!["/originals/a".to_string(), "/originals/b".to_string()]);
}

#[test]
fn page_without_images_is_done() {
    let mut e = Engine::new(None, 5, 100);
    assert_eq!(e.on_no_images(), Action::Finish(StopReason::Done));
    assert_eq!(e.phase(), Phase::Finished(StopReason::Done));
}

#[test]
fn thumbnail_sources_are_never_accepted() {
    let mut e = Engine::new(None, 1, 100);
    let found = vec![src("/123x456_RS/a.jpg"), src("/75x75_RS/b.jpg"), src("/280x280_RS/c.jpg")];
    assert_eq!(e.on_extracted(&found), Action::Finish(StopReason::Stalled));
    assert_eq!(e.resource_count(), 0);
}
