use surface_ratings::errors::ErrorKind;
use surface_ratings::event_log::{
    bootstrap, rating_line, read_log_rows, replay, report_line, row_line, LogEntry, LogKind,
};
use surface_ratings::session::ActiveUsers;
use surface_ratings::structs::{Datestamp, FlowType, Likert, User};
use surface_ratings::surface::Report;

fn entry(name: &str, date: u32, flow: FlowType, num: u32) -> LogEntry {
    LogEntry { user: User::new(name), date: Datestamp(date), flow, num }
}

fn row(fields: &[&str]) -> Vec<String> {
    fields.iter().map(|f| f.to_string()).collect()
}

fn started(kind: LogKind) -> String {
    bootstrap("", kind.header())
}

#[test]
fn headers_are_the_documented_ones() {
    assert_eq!(LogKind::Ratings.header(), "User,Date,Flow type,Number,Warm,Hard,Rough,Sticky");
    assert_eq!(LogKind::Reports.header(), "User,Date,Flow type,Number,Dark,Bright,Blurry,Grainy");
}

#[test]
fn bootstrap_writes_the_header_into_an_empty_log_only() {
    assert_eq!(bootstrap("", "a,b"), "a,b\n");
    assert_eq!(bootstrap("a,b\n", "a,b"), "");
    assert_eq!(bootstrap("x", "a,b"), "");
    assert_eq!(bootstrap("\n", "a,b"), "");
}

#[test]
fn bootstrap_twice_leaves_one_header_line_and_loses_nothing() {
    let header = LogKind::Ratings.header();
    let mut log = String::new();
    log.push_str(&bootstrap(&log, header));
    log.push_str(&bootstrap(&log, header));
    assert_eq!(log, format!("{}\n", header));

    let mut used = format!("{}\nbob,20230101,biocam,4,3,4,2,5\n", header);
    let before = used.clone();
    used.push_str(&bootstrap(&used, header));
    used.push_str(&bootstrap(&used, header));
    assert_eq!(used, before);
}

#[test]
fn row_line_joins_fields_with_commas() {
    assert_eq!(row_line(&row(&["a", "b", "c"])), "a,b,c\n");
    assert_eq!(row_line(&row(&["only"])), "only\n");
    assert_eq!(row_line(&row(&[])), "\n");
    assert_eq!(row_line(&row(&["", ""])), ",\n");
}

#[test]
fn rating_line_is_one_row_of_eight_fields() {
    let key = (Datestamp(20230101), FlowType::BioCam, 4);
    let text = rating_line(&User::new("bob"), &key, Likert(3), Likert(4), Likert(2), Likert(5));
    assert_eq!(text, "bob,20230101,biocam,4,3,4,2,5\n");
}

#[test]
fn report_line_writes_the_reasons_as_truth_values() {
    let report = Report {
        date: Datestamp(20170224),
        flow: FlowType::OptoCam,
        num: 11,
        dark: true,
        bright: false,
        blurry: false,
        grainy: true,
    };
    assert_eq!(report_line(&User::new("eve"), &report), "eve,20170224,optocam,11,true,false,false,true\n");
}

#[test]
fn read_log_rows_reads_who_saw_what() {
    let rows = vec![
        row(&["bob", "20230101", "biocam", "4", "3", "4", "2", "5"]),
        row(&["alice", "20230102", "stickcam", "0", "1", "1", "1", "1"]),
    ];
    assert_eq!(
        read_log_rows(LogKind::Ratings, &rows),
        Ok(vec![
            entry("bob", 20230101, FlowType::BioCam, 4),
            entry("alice", 20230102, FlowType::StickCam, 0),
        ])
    );
    assert_eq!(read_log_rows(LogKind::Reports, &vec![]), Ok(vec![]));
    let e = entry("bob", 20230101, FlowType::BioCam, 4);
    assert_eq!(e.key(), (Datestamp(20230101), FlowType::BioCam, 4));
}

#[test]
fn read_log_rows_checks_the_answers_of_the_ratings_log() {
    let good = row(&["bob", "20230101", "biocam", "4"]);
    assert!(read_log_rows(LogKind::Ratings, &vec![good.clone()]).is_ok());
    let long = row(&["bob", "20230101", "biocam", "4", "1", "2", "3", "4", "5", "1"]);
    assert!(read_log_rows(LogKind::Ratings, &vec![long]).is_ok());
    for bad in [
        row(&["bob", "20230101", "biocam", "4", "3", "4", "2", "6"]),
        row(&["bob", "20230101", "biocam", "4", "3", "", "2", "5"]),
        row(&["bob", "20230101", "biocam", "4", "true", "false", "false", "true"]),
        row(&["bob", "20230101", "biocam"]),
        row(&["bob", "x", "biocam", "4", "3", "4", "2", "5"]),
        row(&["bob", "20230101", "Biocam", "4", "3", "4", "2", "5"]),
        row(&["bob", "20230101", "biocam", "4.0", "3", "4", "2", "5"]),
        row(&[]),
    ] {
        assert_eq!(read_log_rows(LogKind::Ratings, &vec![good.clone(), bad]), Err(ErrorKind::Log));
    }
}

#[test]
fn read_log_rows_checks_the_reasons_of_the_reports_log() {
    let good = row(&["eve", "20170224", "optocam", "11", "true", "false", "false", "true"]);
    assert_eq!(
        read_log_rows(LogKind::Reports, &vec![good.clone()]),
        Ok(vec![entry("eve", 20170224, FlowType::OptoCam, 11)])
    );
    let wide = row(&["eve", "20170224", "optocam", "11", "true", "false", "false", "true", "?"]);
    assert!(read_log_rows(LogKind::Reports, &vec![wide]).is_ok());
    for bad in [
        row(&["eve", "20170224", "optocam", "11", "true", "false", "false"]),
        row(&["eve", "20170224", "optocam", "11", "true", "false", "false", "yes"]),
        row(&["eve", "20170224", "optocam", "11", "1", "0", "0", "1"]),
        row(&["eve", "20170224", "optocam", "11", "True", "false", "false", "true"]),
        row(&["eve", "20170224", "optocam", "eleven", "true", "false", "false", "true"]),
    ] {
        assert_eq!(read_log_rows(LogKind::Reports, &vec![bad, good.clone()]), Err(ErrorKind::Log));
    }
}

#[test]
fn replay_skips_the_header_and_splits_rows() {
    let text = "User,Date,Flow type,Number,Warm,Hard,Rough,Sticky\n\
                bob,20230101,biocam,4,3,4,2,5\n\
                \"Smith, J\",20230102,optocam,7,1,1,1,1\n";
    assert_eq!(
        replay(LogKind::Ratings, text),
        Ok(vec![
            entry("bob", 20230101, FlowType::BioCam, 4),
            entry("Smith, J", 20230102, FlowType::OptoCam, 7),
        ])
    );
}

#[test]
fn replay_of_an_empty_or_fresh_log_is_empty() {
    assert_eq!(replay(LogKind::Ratings, ""), Ok(vec![]));
    assert_eq!(replay(LogKind::Ratings, &started(LogKind::Ratings)), Ok(vec![]));
    assert_eq!(replay(LogKind::Reports, &started(LogKind::Reports)), Ok(vec![]));
}

#[test]
fn replay_fails_on_a_malformed_log() {
    let ragged = "User,Date,Flow type,Number,Warm,Hard,Rough,Sticky\nbob,20230101,biocam,4,3\n";
    assert_eq!(replay(LogKind::Ratings, ragged), Err(ErrorKind::Log));
    let wrong = "User,Date,Flow type,Number,Warm,Hard,Rough,Sticky\nbob,20230101,biocam,4,3,4,2,9\n";
    assert_eq!(replay(LogKind::Ratings, wrong), Err(ErrorKind::Log));
    let swapped = format!("{}bob,20230101,biocam,4,3,4,2,5\n", started(LogKind::Reports));
    assert_eq!(replay(LogKind::Reports, &swapped), Err(ErrorKind::Log));
}

#[test]
fn replay_yields_every_appended_row_in_order() {
    let written = [
        ("alice", (Datestamp(20230101), FlowType::BioCam, 1u32)),
        ("bob", (Datestamp(20230101), FlowType::BioCam, 2)),
        ("alice", (Datestamp(20230102), FlowType::OptoCam, 1)),
        ("carol", (Datestamp(20221231), FlowType::StickCam, 30)),
        ("bob", (Datestamp(20230101), FlowType::BioCam, 1)),
    ];
    let mut log = started(LogKind::Ratings);
    for (i, (name, key)) in written.iter().enumerate() {
        let answer = Likert((i % 5) as u8 + 1);
        log.push_str(&rating_line(&User::new(name), key, answer, Likert(1), Likert(5), answer));
    }
    let entries = replay(LogKind::Ratings, &log).unwrap();
    assert_eq!(entries.len(), written.len());
    for (entry, (name, key)) in entries.iter().zip(written.iter()) {
        assert_eq!(entry.user.name, *name);
        assert_eq!(entry.key(), *key);
    }

    let mut users = ActiveUsers::new();
    users.replay(&entries);
    for name in ["alice", "bob", "carol", "dave"] {
        let expected: Vec<_> =
            written.iter().filter(|(n, _)| *n == name).map(|(_, key)| *key).collect();
        assert_eq!(users.seen(&User::new(name)), expected);
    }
}

#[test]
fn a_rating_survives_a_restart() {
    let bob = User::new("bob");
    let key = (Datestamp(20230101), FlowType::BioCam, 4);
    let mut log = String::new();
    log.push_str(&bootstrap(&log, LogKind::Ratings.header()));
    log.push_str(&rating_line(&bob, &key, Likert(3), Likert(4), Likert(2), Likert(5)));

    let mut restarted = ActiveUsers::new();
    log.push_str(&bootstrap(&log, LogKind::Ratings.header()));
    restarted.replay(&replay(LogKind::Ratings, &log).unwrap());
    assert_eq!(restarted.seen(&bob), vec![key]);
    assert!(restarted.has_seen(&bob, &key));
    assert!(!restarted.has_seen(&bob, &(Datestamp(20230101), FlowType::BioCam, 5)));
    assert!(!restarted.has_seen(&User::new("alice"), &key));
}

#[test]
fn a_report_survives_a_restart() {
    let eve = User::new("eve");
    let report = Report {
        date: Datestamp(20170224),
        flow: FlowType::OptoCam,
        num: 11,
        dark: false,
        bright: true,
        blurry: false,
        grainy: false,
    };
    let mut log = started(LogKind::Reports);
    log.push_str(&report_line(&eve, &report));
    let mut restarted = ActiveUsers::new();
    restarted.replay(&replay(LogKind::Reports, &log).unwrap());
    assert_eq!(restarted.seen(&eve), vec![report.key()]);
}
