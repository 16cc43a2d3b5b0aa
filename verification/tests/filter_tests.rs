use dxclrecorder::configuration::{
    Configuration, Connection, Filter, Logging, LoggingFile, Output, OutputFile, Type,
};
use dxclrecorder::spot::{
    match_filter, process_line, route_spot, spot_passes, spot_verdict_of, FilterVerdict,
    LineOutcome, ParsedSpot, SpotKind,
};

fn config(types: [bool; 6], bands: &[&str], console: bool, file: bool) -> Configuration {
    Configuration {
        connection: Connection { constrings: vec![], reconnect: false, retries: 1, backoff: 1 },
        logging: Logging {
            console: true,
            file: LoggingFile { enabled: false, filename: String::new() },
        },
        output: Output {
            console,
            file: OutputFile {
                enabled: file,
                date: false,
                rotate: false,
                compress: false,
                filename: "spots.json".to_string(),
            },
        },
        filter: Filter {
            spot_type: Type {
                dx: types[0],
                wx: types[1],
                wwv: types[2],
                wcy: types[3],
                toall: types[4],
                tolocal: types[5],
            },
            band: bands.iter().map(|s| s.to_string()).collect(),
        },
    }
}

const ALL: [bool; 6] = [true; 6];

#[test]
fn dx_on_listed_band() {
    let c = config(ALL, &["40m"], true, false);
    assert!(match_filter(&SpotKind::DX { freq: 7_040_000 }, &c));
}

#[test]
fn dx_on_other_band() {
    let c = config(ALL, &["20m"], true, false);
    assert!(!match_filter(&SpotKind::DX { freq: 7_040_000 }, &c));
}

#[test]
fn dx_outside_any_band() {
    let c = config(ALL, &["40m"], true, false);
    assert!(!match_filter(&SpotKind::DX { freq: 8_000_000 }, &c));
}

#[test]
fn empty_band_list_keeps_every_band() {
    let c = config(ALL, &[], true, false);
    assert!(!match_filter(&SpotKind::DX { freq: 8_000_000 }, &c));
    assert!(match_filter(&SpotKind::DX { freq: 14_025_000 }, &c));
}

#[test]
fn band_filter_only_for_dx() {
    let c = config(ALL, &["40m"], true, false);
    assert!(match_filter(&SpotKind::WX, &c));
    assert!(match_filter(&SpotKind::WWV, &c));
    assert!(match_filter(&SpotKind::WCY, &c));
    assert!(match_filter(&SpotKind::ToAll, &c));
    assert!(match_filter(&SpotKind::ToLocal, &c));
}

#[test]
fn type_filter() {
    let c = config([false, true, false, true, false, true], &[], true, false);
    assert!(!match_filter(&SpotKind::DX { freq: 7_040_000 }, &c));
    assert!(match_filter(&SpotKind::WX, &c));
    assert!(!match_filter(&SpotKind::WWV, &c));
    assert!(match_filter(&SpotKind::WCY, &c));
    assert!(!match_filter(&SpotKind::ToAll, &c));
    assert!(match_filter(&SpotKind::ToLocal, &c));
}

#[test]
fn spot_passes_with_given_band() {
    let c = config(ALL, &["40m", "20m"], true, false);
    assert!(spot_passes(&c.filter, SpotKind::DX { freq: 1 }, &Some("20m".to_string())));
    assert!(!spot_passes(&c.filter, SpotKind::DX { freq: 1 }, &Some("80m".to_string())));
    assert!(!spot_passes(&c.filter, SpotKind::DX { freq: 1 }, &None));
    assert!(spot_passes(&c.filter, SpotKind::WX, &None));
}

#[test]
fn route_kept_spot() {
    let c = config(ALL, &[], true, false);
    match route_spot(&c, Some(ParsedSpot { kind: SpotKind::WX, json: "{}".to_string() })) {
        LineOutcome::Kept(out) => {
            assert_eq!(out.entry, "{}");
            assert!(out.console);
            assert!(!out.file);
        }
        _ => panic!("expected the spot to be kept"),
    }
}

#[test]
fn route_dropped_spot() {
    let c = config([true, false, true, true, true, true], &[], true, true);
    assert!(matches!(
        route_spot(&c, Some(ParsedSpot { kind: SpotKind::WX, json: "{}".to_string() })),
        LineOutcome::Dropped { kind: SpotKind::WX, verdict: FilterVerdict::KindDisabled }
    ));
    assert!(matches!(route_spot(&c, None), LineOutcome::Unparsable));
}

#[test]
fn verdicts() {
    let c = config([false, true, true, true, true, true], &["40m"], true, true);
    assert_eq!(spot_verdict_of(&SpotKind::DX { freq: 8_000_000 }, &c), FilterVerdict::NoBand);
    assert_eq!(spot_verdict_of(&SpotKind::DX { freq: 7_040_000 }, &c), FilterVerdict::KindDisabled);
    let c = config(ALL, &["40m"], true, true);
    assert_eq!(spot_verdict_of(&SpotKind::DX { freq: 14_025_000 }, &c), FilterVerdict::BandNotListed);
    assert_eq!(spot_verdict_of(&SpotKind::DX { freq: 7_040_000 }, &c), FilterVerdict::Keep);
    let c = config(ALL, &[], true, true);
    assert_eq!(spot_verdict_of(&SpotKind::DX { freq: 8_000_000 }, &c), FilterVerdict::NoBand);
    assert_eq!(spot_verdict_of(&SpotKind::DX { freq: 7_040_000 }, &c), FilterVerdict::Keep);
}

const DX_LINE: &str =
    "DX de DJ1TO:      3780.0  OH5Z         LSB                            2200Z JO62";

#[test]
fn process_dx_line() {
    let c = config(ALL, &["80m"], false, true);
    let expected = dxclparser::parse(DX_LINE).unwrap().to_json();
    match process_line(&c, DX_LINE) {
        LineOutcome::Kept(out) => {
            assert_eq!(out.entry, expected);
            assert!(out.entry.contains("\"freq\":3780000"));
            assert!(!out.console);
            assert!(out.file);
        }
        _ => panic!("expected the spot to be kept"),
    }
}

#[test]
fn process_dx_line_wrong_band() {
    let c = config(ALL, &["40m"], true, true);
    assert!(matches!(
        process_line(&c, DX_LINE),
        LineOutcome::Dropped { kind: SpotKind::DX { freq: 3_780_000 }, verdict: FilterVerdict::BandNotListed }
    ));
}

#[test]
fn process_unparsable_line() {
    let c = config(ALL, &[], true, true);
    assert!(matches!(process_line(&c, "hello world"), LineOutcome::Unparsable));
    assert!(matches!(process_line(&c, "DX de DF2MX"), LineOutcome::Unparsable));
}
