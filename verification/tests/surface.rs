use surface_ratings::errors::ErrorKind;
use surface_ratings::structs::{Datestamp, FlowType, Likert, Rating};
use surface_ratings::surface::{FlowCommand, FlowState, Report, SurfaceData};

fn field(name: &str, value: &str) -> (String, String) {
    (name.to_string(), value.to_string())
}

fn question(prompt: &str, data: Option<i64>) -> FlowCommand {
    FlowCommand::Int { prompt: prompt.to_string(), data }
}

fn rating(short: &str, answer: u8) -> Rating {
    Rating { short: short.to_string(), answer }
}

#[test]
fn from_form_reads_key_and_ratings() {
    let items = vec![
        field("date", "20230101"),
        field("flow", "biocam"),
        field("num", "4"),
        field("warm", "3"),
        field("hard", "5"),
    ];
    let surface = SurfaceData::from_form(&items, true).unwrap();
    assert_eq!(
        surface,
        SurfaceData {
            date: Datestamp(20230101),
            flow: FlowType::BioCam,
            num: 4,
            ratings: vec![rating("warm", 3), rating("hard", 5)],
        }
    );
    assert_eq!(surface.key(), (Datestamp(20230101), FlowType::BioCam, 4));
    assert_eq!(surface.rating("warm"), Some(Likert(3)));
    assert_eq!(surface.rating("hard"), Some(Likert(5)));
    assert_eq!(surface.rating("rough"), None);
}

#[test]
fn from_form_takes_the_last_of_repeated_fields() {
    let items = vec![
        field("warm", "1"),
        field("date", "1"),
        field("num", "9"),
        field("flow", "stickcam"),
        field("date", "2"),
        field("warm", "4"),
        field("flow", "optocam"),
        field("num", "10"),
    ];
    let surface = SurfaceData::from_form(&items, false).unwrap();
    assert_eq!(surface.key(), (Datestamp(2), FlowType::OptoCam, 10));
    assert_eq!(surface.ratings, vec![rating("warm", 1), rating("warm", 4)]);
    assert_eq!(surface.rating("warm"), Some(Likert(4)));
}

#[test]
fn from_form_needs_date_flow_and_num() {
    let full = vec![field("date", "1"), field("flow", "biocam"), field("num", "2")];
    assert!(SurfaceData::from_form(&full, true).is_ok());
    for missing in 0..3 {
        let mut items = full.clone();
        items.remove(missing);
        assert_eq!(SurfaceData::from_form(&items, true), Err(ErrorKind::Format));
        assert_eq!(SurfaceData::from_form(&items, false), Err(ErrorKind::Format));
    }
    assert_eq!(SurfaceData::from_form(&vec![], false), Err(ErrorKind::Format));
}

#[test]
fn from_form_rejects_bad_key_fields_even_when_lenient() {
    let bad = [("date", "yesterday"), ("flow", "BioCam"), ("num", "-1")];
    for (name, value) in bad {
        let items = vec![
            field("date", "1"),
            field("flow", "biocam"),
            field("num", "2"),
            field(name, value),
        ];
        assert_eq!(SurfaceData::from_form(&items, false), Err(ErrorKind::Format));
    }
}

#[test]
fn from_form_strictness_decides_on_fields_that_are_no_ratings() {
    let items = vec![
        field("date", "1"),
        field("flow", "biocam"),
        field("comment", "nice"),
        field("num", "2"),
        field("warm", "6"),
        field("rough", "2"),
    ];
    assert_eq!(SurfaceData::from_form(&items, true), Err(ErrorKind::Format));
    let lenient = SurfaceData::from_form(&items, false).unwrap();
    assert_eq!(lenient.ratings, vec![rating("rough", 2)]);
}

#[test]
fn from_flow_file_reads_the_wrap_up_state() {
    let states = vec![
        FlowState {
            name: "Set up".to_string(),
            script: vec![question("Not this one/ignored", Some(1))],
        },
        FlowState {
            name: "Wrap up [12.5]".to_string(),
            script: vec![
                FlowCommand::Other,
                question("How warm?/warm", Some(3)),
                question("How hard?/hard/extra", Some(5)),
                question("No answer/skipped", None),
                question("no short name either", None),
                question("Again/warm", Some(1)),
            ],
        },
        FlowState { name: "Wrap up again".to_string(), script: vec![question("x/late", Some(2))] },
    ];
    let surface =
        SurfaceData::from_flow_file(Datestamp(20230101), FlowType::BioCam, 4, &states).unwrap();
    assert_eq!(surface.key(), (Datestamp(20230101), FlowType::BioCam, 4));
    assert_eq!(surface.ratings, vec![rating("warm", 3), rating("hard", 5), rating("warm", 1)]);
    assert_eq!(surface.rating("warm"), Some(Likert(1)));
    assert_eq!(surface.rating("late"), None);
}

#[test]
fn from_flow_file_fails_without_a_wrap_up_state() {
    let states = vec![
        FlowState { name: "wrap up".to_string(), script: vec![] },
        FlowState { name: " Wrap up".to_string(), script: vec![] },
        FlowState { name: "Wrap u".to_string(), script: vec![] },
    ];
    assert_eq!(
        SurfaceData::from_flow_file(Datestamp(1), FlowType::BioCam, 1, &states),
        Err(ErrorKind::Parse)
    );
    assert_eq!(
        SurfaceData::from_flow_file(Datestamp(1), FlowType::BioCam, 1, &vec![]),
        Err(ErrorKind::Parse)
    );
}

#[test]
fn from_flow_file_fails_on_an_answer_without_a_short_name() {
    let states = vec![FlowState {
        name: "Wrap up".to_string(),
        script: vec![question("How warm?/warm", Some(3)), question("How hard?", Some(4))],
    }];
    assert_eq!(
        SurfaceData::from_flow_file(Datestamp(1), FlowType::BioCam, 1, &states),
        Err(ErrorKind::Parse)
    );
}

#[test]
fn from_flow_file_fails_on_an_answer_off_the_scale() {
    for answer in [200, 0, 6, 9, -1, 256, 257, 261, i64::MAX, i64::MIN] {
        let states = vec![FlowState {
            name: "Wrap up".to_string(),
            script: vec![question("How warm?/warm", Some(3)), question("Again/warm", Some(answer))],
        }];
        assert_eq!(
            SurfaceData::from_flow_file(Datestamp(1), FlowType::BioCam, 1, &states),
            Err(ErrorKind::Parse)
        );
    }
}

#[test]
fn from_flow_file_keeps_every_answer_on_the_scale() {
    for answer in 1..=5 {
        let states = vec![FlowState {
            name: "Wrap up".to_string(),
            script: vec![question("How warm?/warm", Some(answer))],
        }];
        let surface =
            SurfaceData::from_flow_file(Datestamp(1), FlowType::BioCam, 1, &states).unwrap();
        assert_eq!(surface.ratings, vec![rating("warm", answer as u8)]);
    }
}

#[test]
fn from_flow_file_accepts_an_empty_wrap_up_state() {
    let states = vec![FlowState { name: "Wrap up".to_string(), script: vec![] }];
    let surface = SurfaceData::from_flow_file(Datestamp(1), FlowType::OptoCam, 2, &states).unwrap();
    assert_eq!(surface.ratings, vec![]);
}

#[test]
fn report_knows_its_key_and_whether_it_gives_a_reason() {
    let mut report = Report {
        date: Datestamp(20230101),
        flow: FlowType::StickCam,
        num: 8,
        dark: false,
        bright: false,
        blurry: false,
        grainy: false,
    };
    assert_eq!(report.key(), (Datestamp(20230101), FlowType::StickCam, 8));
    assert!(!report.has_reason());
    report.blurry = true;
    assert!(report.has_reason());
}
