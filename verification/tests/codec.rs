use surface_ratings::errors::{status_code, ErrorKind};
use surface_ratings::structs::{same_key, Datestamp, FlowType, Likert, Rating, User};
use surface_ratings::text::{chars_of, parse_bounded, push_decimal, split, string_of};
use surface_ratings::utils::{
    elapsed, episode_path, extract_path, format_elapsed, image_path, probe_path, scan_pattern,
    session_path,
};

#[test]
fn flow_tokens_round_trip() {
    for flow in [FlowType::StickCam, FlowType::OptoCam, FlowType::BioCam] {
        assert_eq!(FlowType::from_str(&flow.to_string()), Ok(flow));
        assert_eq!(FlowType::from_str(flow.as_str()), Ok(flow));
    }
    assert_eq!(FlowType::StickCam.to_string(), "stickcam");
    assert_eq!(FlowType::OptoCam.to_string(), "optocam");
    assert_eq!(FlowType::BioCam.to_string(), "biocam");
}

#[test]
fn other_flow_tokens_fail() {
    for token in ["", "BioCam", "biocam ", " biocam", "bio", "biocams", "stick", "cam"] {
        assert_eq!(FlowType::from_str(token), Err(ErrorKind::Format));
    }
}

#[test]
fn datestamp_reads_unsigned_decimal() {
    assert_eq!(Datestamp::from_str("20230101"), Ok(Datestamp(20230101)));
    assert_eq!(Datestamp::from_str("+7"), Ok(Datestamp(7)));
    assert_eq!(Datestamp::from_str("007"), Ok(Datestamp(7)));
    assert_eq!(Datestamp::from_str("0"), Ok(Datestamp(0)));
    assert_eq!(Datestamp::from_str("4294967295"), Ok(Datestamp(u32::MAX)));
    assert_eq!(Datestamp(20230101).to_string(), "20230101");
    assert_eq!(Datestamp(0).to_string(), "0");
}

#[test]
fn datestamp_rejects_what_is_no_number() {
    for text in ["", "+", "-1", "12a", "1 2", " 12", "4294967296", "99999999999999999999", "++1", "1.0"] {
        assert_eq!(Datestamp::from_str(text), Err(ErrorKind::Format));
    }
}

#[test]
fn datestamp_agrees_with_the_standard_parser() {
    for text in ["0", "12", "+12", "0012", "4294967295", "4294967296", "", "+", "-", "-0", "1_000", "١٢"] {
        let expected = text.parse::<u32>().ok().map(Datestamp);
        assert_eq!(Datestamp::from_str(text).ok(), expected);
    }
}

#[test]
fn likert_accepts_one_to_five_only() {
    for n in 1u8..=5 {
        assert_eq!(Likert::from_str(&format!("{}", n)), Ok(Likert(n)));
    }
    assert_eq!(Likert::from_str("+3"), Ok(Likert(3)));
    assert_eq!(Likert::from_str("005"), Ok(Likert(5)));
    for text in ["0", "6", "10", "255", "256", "261", "", "three", "3 ", "-3", "4294967299"] {
        assert_eq!(Likert::from_str(text), Err(ErrorKind::Format));
    }
    assert!(Likert(1).on_scale());
    assert!(Likert(5).on_scale());
    assert!(!Likert(0).on_scale());
    assert!(!Likert(6).on_scale());
}

#[test]
fn parse_bounded_respects_the_bound() {
    assert_eq!(parse_bounded(&chars_of("255"), 255), Some(255));
    assert_eq!(parse_bounded(&chars_of("256"), 255), None);
    assert_eq!(parse_bounded(&chars_of("0"), 0), Some(0));
    assert_eq!(parse_bounded(&chars_of("1"), 0), None);
}

#[test]
fn decimal_text_is_written_without_padding() {
    let mut out = String::from("n=");
    push_decimal(&mut out, 0);
    push_decimal(&mut out, 1234567890123);
    assert_eq!(out, "n=01234567890123");
    let mut big = String::new();
    push_decimal(&mut big, u64::MAX);
    assert_eq!(big, "18446744073709551615");
}

#[test]
fn split_keeps_empty_pieces() {
    let pieces: Vec<String> = split(&chars_of("a//b/"), '/').iter().map(string_of).collect();
    assert_eq!(pieces, vec!["a", "", "b", ""]);
    let one: Vec<String> = split(&chars_of(""), '/').iter().map(string_of).collect();
    assert_eq!(one, vec![""]);
}

#[test]
fn chars_and_strings_convert_both_ways() {
    assert_eq!(chars_of("héllo"), vec!['h', 'é', 'l', 'l', 'o']);
    assert_eq!(string_of(&vec!['o', 'k', '√']), "ok√");
}

#[test]
fn extract_path_reads_the_key_before_the_file_name() {
    assert_eq!(
        extract_path("/data/20230101/biocam/4/surface.png"),
        Ok((Datestamp(20230101), FlowType::BioCam, 4))
    );
    assert_eq!(
        extract_path("20170224/stickcam/17/stickcam.flow"),
        Ok((Datestamp(20170224), FlowType::StickCam, 17))
    );
}

#[test]
fn extract_path_passes_over_empty_pieces_and_dots() {
    let key = Ok((Datestamp(20230101), FlowType::OptoCam, 4));
    assert_eq!(extract_path("data//20230101/optocam/./4/surface.png"), key);
    assert_eq!(extract_path("./20230101/optocam/4/surface.png/"), key);
    assert_eq!(extract_path("20230101/optocam/4/../"), key);
}

#[test]
fn extract_path_rejects_too_short_or_malformed_paths() {
    for path in [
        "",
        "surface.png",
        "20230101/biocam/4",
        "/20230101/biocam/4",
        "20230101/biocam/4/",
        "data/x/biocam/4/surface.png",
        "data/20230101/camera/4/surface.png",
        "data/20230101/biocam/four/surface.png",
        "data/20230101/biocam/4/extra/surface.png",
        "data/20230101/biocam/4294967296/surface.png",
    ] {
        assert_eq!(extract_path(path), Err(ErrorKind::Format));
    }
}

#[test]
fn extract_path_undoes_probe_path() {
    let keys = [
        (Datestamp(0), FlowType::StickCam, 0),
        (Datestamp(20230101), FlowType::BioCam, 4),
        (Datestamp(u32::MAX), FlowType::OptoCam, u32::MAX),
    ];
    for key in keys {
        for root in ["", "data", "data/", "/srv/episodes", "./x//y/"] {
            for leaf in ["surface.png", "biocam.flow", "..", "7"] {
                assert_eq!(extract_path(&probe_path(root, &key, leaf)), Ok(key));
            }
        }
    }
}

#[test]
fn probe_path_joins_root_key_and_leaf() {
    let key = (Datestamp(20230101), FlowType::OptoCam, 12);
    assert_eq!(episode_path(&key), "20230101/optocam/12");
    assert_eq!(probe_path("data", &key, "surface.png"), "data/20230101/optocam/12/surface.png");
    assert_eq!(probe_path("data/", &key, "x"), "data/20230101/optocam/12/x");
    assert_eq!(probe_path("", &key, "x"), "20230101/optocam/12/x");
    assert_eq!(image_path("/srv", &key), "/srv/20230101/optocam/12/surface.png");
    assert_eq!(session_path("/srv", &key), "/srv/20230101/optocam/12/optocam.flow");
}

#[test]
fn scan_pattern_matches_biocam_images() {
    assert_eq!(scan_pattern("data"), "data/*/biocam/*/surface.png");
}

#[test]
fn format_elapsed_shows_seconds_and_milliseconds() {
    assert_eq!(format_elapsed(12, 345_678_901), "12.345s");
    assert_eq!(format_elapsed(0, 5_000_000), "0.5s");
    assert_eq!(format_elapsed(3, 999_999), "3.0s");
    assert_eq!(format_elapsed(0, 0), "0.0s");
}

#[test]
fn elapsed_reads_the_clock() {
    let shown = elapsed(std::time::SystemTime::UNIX_EPOCH).unwrap();
    assert!(shown.ends_with('s'));
    let (secs, millis) = shown[..shown.len() - 1].split_once('.').unwrap();
    assert!(secs.parse::<u64>().unwrap() > 1_000_000_000);
    assert!(millis.parse::<u32>().unwrap() < 1000);
    let ahead = std::time::SystemTime::now() + std::time::Duration::from_secs(3600);
    assert_eq!(elapsed(ahead), None);
}

#[test]
fn status_code_follows_the_kind_of_failure() {
    assert_eq!(status_code(ErrorKind::NotFound), 404);
    assert_eq!(status_code(ErrorKind::PermissionDenied), 403);
    assert_eq!(status_code(ErrorKind::Format), 400);
    assert_eq!(status_code(ErrorKind::Parse), 500);
    assert_eq!(status_code(ErrorKind::Exhausted), 500);
    assert_eq!(status_code(ErrorKind::Log), 500);
    assert_eq!(status_code(ErrorKind::Io), 500);
}

#[test]
fn keys_and_users_compare_by_content() {
    let a = (Datestamp(1), FlowType::BioCam, 2);
    assert!(same_key(&a, &(Datestamp(1), FlowType::BioCam, 2)));
    assert!(!same_key(&a, &(Datestamp(1), FlowType::BioCam, 3)));
    assert!(!same_key(&a, &(Datestamp(1), FlowType::OptoCam, 2)));
    assert!(!same_key(&a, &(Datestamp(2), FlowType::BioCam, 2)));
    assert!(User::new("alice").same(&User::new("alice")));
    assert!(!User::new("alice").same(&User::new("Alice")));
    assert_eq!(User::default().name, "");
    assert_eq!(Rating::default(), Rating { short: String::new(), answer: 0 });
}
