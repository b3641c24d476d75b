use surface_ratings::catalog::ProbeOutcome::{Failed, Found, Missing};
use surface_ratings::catalog::{
    first_probe, next_probe, probe_outcome, resolve, session_beside, Catalog, ProbeOutcome,
    ResolveStep, Scanned,
};
use surface_ratings::errors::ErrorKind;
use surface_ratings::event_log::{replay, LogKind};
use surface_ratings::routes::{episode, index, random, rate, report};
use surface_ratings::selector::{pick_unseen, pick_with, unseen_keys};
use surface_ratings::session::{ActiveUsers, Reports, UserInfo};
use surface_ratings::structs::{Datestamp, EpisodeKey, FlowType, Rating, User};
use surface_ratings::surface::{FlowCommand, FlowState, Report, SurfaceData};

fn key(num: u32) -> EpisodeKey {
    (Datestamp(20230101), FlowType::BioCam, num)
}

fn surface(num: u32, ratings: &[(&str, u8)]) -> SurfaceData {
    SurfaceData {
        date: Datestamp(20230101),
        flow: FlowType::BioCam,
        num,
        ratings: ratings
            .iter()
            .map(|(short, answer)| Rating { short: short.to_string(), answer: *answer })
            .collect(),
    }
}

fn catalog_of(nums: &[u32]) -> Catalog {
    let mut catalog = Catalog::new();
    for num in nums {
        catalog.add(surface(*num, &[]));
    }
    catalog
}

fn session(answer: i64) -> Vec<FlowState> {
    vec![FlowState {
        name: "Wrap up".to_string(),
        script: vec![FlowCommand::Int { prompt: "How warm?/warm".to_string(), data: Some(answer) }],
    }]
}

#[test]
fn index_greets() {
    assert_eq!(index(), "It works!");
}

#[test]
fn a_new_user_info_is_blank() {
    let info = UserInfo::default();
    assert_eq!(info.seen, vec![]);
    assert!(!info.rate_error);
    assert!(!info.report_error);
}

#[test]
fn user_info_appends_what_was_seen() {
    let mut info = UserInfo::default();
    info.mark_seen(key(1));
    info.mark_seen(key(2));
    info.mark_seen(key(1));
    assert_eq!(info.seen, vec![key(1), key(2), key(1)]);
    assert!(info.has_seen(&key(1)));
    assert!(info.has_seen(&key(2)));
    assert!(!info.has_seen(&key(3)));
}

#[test]
fn rate_error_is_read_once() {
    let alice = User::new("alice");
    let mut users = ActiveUsers::new();
    assert!(!users.take_rate_error(&alice));
    users.set_rate_error(&alice);
    assert!(users.take_rate_error(&alice));
    assert!(!users.take_rate_error(&alice));
}

#[test]
fn report_error_is_read_once() {
    let alice = User::new("alice");
    let mut users = ActiveUsers::new();
    users.set_report_error(&alice);
    users.set_report_error(&alice);
    assert!(users.take_report_error(&alice));
    assert!(!users.take_report_error(&alice));
}

#[test]
fn the_two_flags_and_the_users_are_independent() {
    let alice = User::new("alice");
    let bob = User::new("bob");
    let mut users = ActiveUsers::new();
    users.set_rate_error(&alice);
    users.set_report_error(&bob);
    assert!(!users.take_report_error(&alice));
    assert!(!users.take_rate_error(&bob));
    assert!(users.take_rate_error(&alice));
    assert!(users.take_report_error(&bob));
}

#[test]
fn get_or_create_hands_out_the_record_of_a_user() {
    let alice = User::new("alice");
    let mut users = ActiveUsers::new();
    assert!(!users.is_known(&alice));
    {
        let info = users.get_or_create(&alice);
        assert_eq!(info.seen, vec![]);
        info.mark_seen(key(7));
        info.rate_error = true;
    }
    assert!(users.is_known(&alice));
    assert!(!users.is_known(&User::new("bob")));
    assert_eq!(users.get_or_create(&alice).seen, vec![key(7)]);
    assert!(users.has_seen(&alice, &key(7)));
    assert!(users.take_rate_error(&alice));
}

#[test]
fn mark_seen_is_kept_per_user() {
    let alice = User::new("alice");
    let bob = User::new("bob");
    let mut users = ActiveUsers::new();
    users.mark_seen(&alice, key(1));
    users.mark_seen(&bob, key(2));
    users.mark_seen(&alice, key(3));
    users.mark_seen(&alice, key(1));
    assert_eq!(users.seen(&alice), vec![key(1), key(3), key(1)]);
    assert_eq!(users.seen(&bob), vec![key(2)]);
    assert_eq!(users.seen(&User::new("carol")), vec![]);
    assert!(users.has_seen(&alice, &key(3)));
    assert!(!users.has_seen(&bob, &key(3)));
    assert!(!users.has_seen(&User::new("carol"), &key(1)));
}

#[test]
fn reports_is_a_set() {
    let mut reports = Reports::new();
    assert_eq!(reports.len(), 0);
    assert!(reports.insert(key(1)));
    assert!(reports.insert(key(2)));
    assert!(!reports.insert(key(1)));
    assert_eq!(reports.len(), 2);
    assert!(reports.contains(&key(1)));
    assert!(!reports.contains(&key(3)));
}

#[test]
fn unseen_keys_keeps_the_order_of_the_catalog() {
    let keys = vec![key(1), key(2), key(3), key(4)];
    assert_eq!(unseen_keys(&keys, &vec![key(3), key(1), key(9)]), vec![key(2), key(4)]);
    assert_eq!(unseen_keys(&keys, &vec![]), keys);
    assert_eq!(unseen_keys(&vec![], &keys), vec![]);
}

#[test]
fn pick_with_counts_among_the_unseen_only() {
    let keys = vec![key(1), key(2), key(3), key(4)];
    let seen = vec![key(2)];
    assert_eq!(pick_with(&keys, &seen, 0), Ok(key(1)));
    assert_eq!(pick_with(&keys, &seen, 1), Ok(key(3)));
    assert_eq!(pick_with(&keys, &seen, 2), Ok(key(4)));
    assert_eq!(pick_with(&keys, &seen, 3), Ok(key(1)));
    assert_eq!(pick_with(&keys, &keys, 0), Err(ErrorKind::Exhausted));
    assert_eq!(pick_with(&vec![], &seen, 5), Err(ErrorKind::Exhausted));
}

#[test]
fn pick_unseen_never_returns_a_seen_key() {
    let keys: Vec<EpisodeKey> = (0..20).map(key).collect();
    let seen: Vec<EpisodeKey> = (0..20).filter(|n| n % 3 != 0).map(key).collect();
    let mut came = std::collections::HashSet::new();
    for _ in 0..400 {
        let picked = pick_unseen(&keys, &seen).unwrap();
        assert!(keys.contains(&picked));
        assert!(!seen.contains(&picked));
        came.insert(picked.2);
    }
    assert!(came.len() > 1);
}

#[test]
fn pick_unseen_fails_when_everything_was_seen() {
    let keys: Vec<EpisodeKey> = (0..5).map(key).collect();
    let mut seen = keys.clone();
    seen.reverse();
    seen.push(key(2));
    assert_eq!(pick_unseen(&keys, &seen), Err(ErrorKind::Exhausted));
    assert_eq!(pick_unseen(&vec![], &vec![]), Err(ErrorKind::Exhausted));
}

#[test]
fn three_episodes_are_shown_and_then_none() {
    let catalog = catalog_of(&[1, 2, 3]);
    let alice = User::new("alice");
    let mut users = ActiveUsers::new();
    let mut shown = Vec::new();
    for _ in 0..3 {
        let picked = random(&mut users, &catalog, &alice).unwrap();
        assert!(catalog.contains(&picked));
        assert!(!shown.contains(&picked));
        users.mark_seen(&alice, picked);
        shown.push(picked);
    }
    assert_eq!(random(&mut users, &catalog, &alice), Err(ErrorKind::Exhausted));
    assert!(random(&mut users, &catalog, &User::new("bob")).is_ok());
}

#[test]
fn catalog_lists_each_key_once_and_the_first_wins() {
    let mut catalog = Catalog::new();
    assert!(catalog.add(surface(1, &[("warm", 1)])));
    assert!(catalog.add(surface(2, &[])));
    assert!(!catalog.add(surface(1, &[("warm", 5)])));
    assert_eq!(catalog.len(), 2);
    assert_eq!(catalog.keys(), vec![key(1), key(2)]);
    assert_eq!(catalog.get(0), Some(&surface(1, &[("warm", 1)])));
    assert_eq!(catalog.get(2), None);
    assert_eq!(catalog.position(&key(2)), Some(1));
    assert_eq!(catalog.position(&key(3)), None);
    assert!(catalog.contains(&key(1)));
    assert!(!catalog.contains(&key(3)));
}

#[test]
fn scan_builds_the_catalog_in_the_order_found() {
    let items = vec![
        Scanned { path: "a/20230101/biocam/2/surface.png".to_string(), states: session(2) },
        Scanned { path: "a/20230101/biocam/1/surface.png".to_string(), states: session(1) },
        Scanned { path: "b/20230101/biocam/2/surface.png".to_string(), states: session(5) },
    ];
    let catalog = Catalog::scan(&items).ok().unwrap();
    assert_eq!(catalog.keys(), vec![key(2), key(1)]);
    assert_eq!(catalog.get(0), Some(&surface(2, &[("warm", 2)])));
    assert_eq!(catalog.get(1), Some(&surface(1, &[("warm", 1)])));
    assert_eq!(Catalog::scan(&vec![]).ok().unwrap().len(), 0);
}

#[test]
fn scan_fails_as_a_whole() {
    let good = || Scanned { path: "a/20230101/biocam/2/surface.png".to_string(), states: session(2) };
    let bad_path = Scanned { path: "a/biocam/2/surface.png".to_string(), states: session(2) };
    let bad_session = Scanned { path: "a/20230101/biocam/3/surface.png".to_string(), states: vec![] };
    assert_eq!(Catalog::scan(&vec![good(), bad_path, good()]).err(), Some(ErrorKind::Format));
    assert_eq!(Catalog::scan(&vec![good(), good(), bad_session]).err(), Some(ErrorKind::Parse));
}

#[test]
fn session_beside_replaces_the_file_name() {
    assert_eq!(
        session_beside("data/20230101/biocam/4/surface.png", FlowType::BioCam),
        "data/20230101/biocam/4/biocam.flow"
    );
    assert_eq!(session_beside("surface.png", FlowType::OptoCam), "optocam.flow");
    assert_eq!(session_beside("a/b/", FlowType::StickCam), "a/b/stickcam.flow");
}

#[test]
fn resolve_takes_the_first_root_that_has_the_episode() {
    assert_eq!(resolve(&vec![Found, Found]), Ok(0));
    assert_eq!(resolve(&vec![Found, Failed]), Ok(0));
    assert_eq!(resolve(&vec![Missing, Found, Found]), Ok(1));
    assert_eq!(resolve(&vec![Missing, Missing, Found]), Ok(2));
}

#[test]
fn resolve_gives_up_on_a_failure_and_when_nothing_is_found() {
    assert_eq!(resolve(&vec![]), Err(ErrorKind::NotFound));
    assert_eq!(resolve(&vec![Missing, Missing]), Err(ErrorKind::NotFound));
    assert_eq!(resolve(&vec![Failed, Found]), Err(ErrorKind::NotFound));
    assert_eq!(resolve(&vec![Missing, Failed, Found]), Err(ErrorKind::NotFound));
}

#[test]
fn only_a_missing_episode_sends_the_search_on() {
    assert_eq!(probe_outcome(None), Found);
    assert_eq!(probe_outcome(Some(ErrorKind::NotFound)), Missing);
    for kind in [
        ErrorKind::PermissionDenied,
        ErrorKind::Parse,
        ErrorKind::Format,
        ErrorKind::Io,
        ErrorKind::Log,
        ErrorKind::Exhausted,
    ] {
        assert_eq!(probe_outcome(Some(kind)), Failed);
    }
}

#[test]
fn probing_goes_root_by_root() {
    assert_eq!(first_probe(0), ResolveStep::NotFound);
    assert_eq!(first_probe(3), ResolveStep::Probe(0));
    assert_eq!(next_probe(3, 0, ProbeOutcome::Missing), ResolveStep::Probe(1));
    assert_eq!(next_probe(3, 1, ProbeOutcome::Found), ResolveStep::Found(1));
    assert_eq!(next_probe(3, 1, ProbeOutcome::Failed), ResolveStep::NotFound);
    assert_eq!(next_probe(3, 2, ProbeOutcome::Missing), ResolveStep::NotFound);
    assert_eq!(next_probe(3, usize::MAX, ProbeOutcome::Missing), ResolveStep::NotFound);
}

#[test]
fn a_complete_submission_is_logged_and_remembered() {
    let bob = User::new("bob");
    let mut users = ActiveUsers::new();
    let form = surface(4, &[("warm", 3), ("hard", 4), ("rough", 2), ("sticky", 5), ("odd", 1)]);
    assert_eq!(rate(&mut users, &bob, &form), Some("bob,20230101,biocam,4,3,4,2,5\n".to_string()));
    assert_eq!(users.seen(&bob), vec![key(4)]);
    assert!(!users.take_rate_error(&bob));
}

#[test]
fn a_submission_with_an_answer_off_the_scale_raises_the_flag() {
    let bob = User::new("bob");
    for bad in [0u8, 6, 9, 200] {
        let mut users = ActiveUsers::new();
        let form = surface(4, &[("warm", 3), ("hard", bad), ("rough", 2), ("sticky", 5)]);
        assert_eq!(rate(&mut users, &bob, &form), None);
        assert_eq!(users.seen(&bob), vec![]);
        assert!(users.take_rate_error(&bob));
    }
}

#[test]
fn a_logged_submission_is_read_back() {
    let bob = User::new("bob");
    let mut users = ActiveUsers::new();
    let form = surface(4, &[("warm", 1), ("hard", 5), ("rough", 2), ("sticky", 4)]);
    let row = rate(&mut users, &bob, &form).unwrap();
    let log = format!("{}\n{}", LogKind::Ratings.header(), row);
    let entries = replay(LogKind::Ratings, &log).unwrap();
    let mut restarted = ActiveUsers::new();
    restarted.replay(&entries);
    assert_eq!(restarted.seen(&bob), vec![key(4)]);
}

#[test]
fn an_incomplete_submission_raises_the_flag() {
    let bob = User::new("bob");
    let mut users = ActiveUsers::new();
    let form = surface(4, &[("warm", 3), ("hard", 4), ("sticky", 5)]);
    assert_eq!(rate(&mut users, &bob, &form), None);
    assert_eq!(users.seen(&bob), vec![]);
    let flash = episode(&mut users, &bob);
    assert_eq!(flash.rate_error, "All ratings are required");
    assert_eq!(flash.report_error, "");
    let again = episode(&mut users, &bob);
    assert_eq!(again.rate_error, "");
    assert_eq!(again.report_error, "");
}

#[test]
fn a_report_with_a_reason_is_logged_and_remembered() {
    let eve = User::new("eve");
    let mut users = ActiveUsers::new();
    let mut reports = Reports::new();
    let filed = Report {
        date: Datestamp(20230101),
        flow: FlowType::BioCam,
        num: 9,
        dark: false,
        bright: false,
        blurry: true,
        grainy: false,
    };
    assert_eq!(
        report(&mut users, &mut reports, &eve, &filed),
        Some("eve,20230101,biocam,9,false,false,true,false\n".to_string())
    );
    assert!(users.has_seen(&eve, &key(9)));
    assert!(reports.contains(&key(9)));
}

#[test]
fn a_report_without_a_reason_raises_the_flag() {
    let eve = User::new("eve");
    let mut users = ActiveUsers::new();
    let mut reports = Reports::new();
    let filed = Report {
        date: Datestamp(20230101),
        flow: FlowType::BioCam,
        num: 9,
        dark: false,
        bright: false,
        blurry: false,
        grainy: false,
    };
    assert_eq!(report(&mut users, &mut reports, &eve, &filed), None);
    assert!(!users.has_seen(&eve, &key(9)));
    assert_eq!(reports.len(), 0);
    let flash = episode(&mut users, &eve);
    assert_eq!(flash.rate_error, "");
    assert_eq!(flash.report_error, "At least one reason is required");
    assert_eq!(episode(&mut users, &eve).report_error, "");
}
