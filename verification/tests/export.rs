//! Tests of the numeric text, the parameters document, the table and
//! the archive.

use wt_ballistics_calc::catalog::select_by_name;
use wt_ballistics_calc::csv_export::render_csv;
use wt_ballistics_calc::launch_parameters::LaunchParameter;
use wt_ballistics_calc::missile::MissileSpec;
use wt_ballistics_calc::numeric::{parse_fixed, parse_u32_dec, render_fixed};
use wt_ballistics_calc::params_doc::{parse_params, render_params};
use wt_ballistics_calc::runner::generate;

fn sample_missile() -> MissileSpec {
    MissileSpec {
        name: String::from("sample"),
        caliber: 200_000,
        mass: 44_000_000,
        mass_end: 34_000_000,
        mass_end1: 0,
        force0: 95_000_000_000,
        force1: 0,
        timefire0: 3_000_000,
        timefire1: 0,
        timelife: 21_000_000,
        cxk: 3_100_000,
        reqaccelmax: 10_000_000,
    }
}

#[test]
fn fixed_rendering_exact() {
    assert_eq!(render_fixed(343_000_000), b"343.000000".to_vec());
    assert_eq!(render_fixed(-1_500_000), b"-1.500000".to_vec());
    assert_eq!(render_fixed(0), b"0.000000".to_vec());
    assert_eq!(render_fixed(1), b"0.000001".to_vec());
}

#[test]
fn fixed_parsing_grammar() {
    assert_eq!(parse_fixed(b"343"), Some(343_000_000));
    assert_eq!(parse_fixed(b"3.5"), Some(3_500_000));
    assert_eq!(parse_fixed(b"-12.25"), Some(-12_250_000));
    assert_eq!(parse_fixed(b"0.000001"), Some(1));
    assert_eq!(parse_fixed(b""), None);
    assert_eq!(parse_fixed(b"-"), None);
    assert_eq!(parse_fixed(b"12."), None);
    assert_eq!(parse_fixed(b"1.2345678"), None);
    assert_eq!(parse_fixed(b"abc"), None);
    assert_eq!(parse_fixed(b"12a"), None);
    // Beyond the fixed-point range.
    assert_eq!(parse_fixed(b"99999999999999999999"), None);
}

#[test]
fn fixed_roundtrip_samples() {
    for x in [0i64, 1, -1, 343_000_000, -9_000_000_000_000, i64::MAX, i64::MIN] {
        let text = render_fixed(x);
        assert_eq!(parse_fixed(&text), Some(x), "round trip failed for {x}");
    }
}

#[test]
fn unsigned_parsing() {
    assert_eq!(parse_u32_dec(b"1000"), Some(1000));
    assert_eq!(parse_u32_dec(b"0"), Some(0));
    assert_eq!(parse_u32_dec(b"4294967295"), Some(u32::MAX));
    assert_eq!(parse_u32_dec(b"4294967296"), None);
    assert_eq!(parse_u32_dec(b""), None);
    assert_eq!(parse_u32_dec(b"12x"), None);
}

#[test]
fn params_document_roundtrip() {
    let p = LaunchParameter {
        use_gravity: true,
        start_velocity: 343_000_000,
        distance_to_target: 1_000_000,
        target_speed: 5_500_000,
        altitude: 1234,
    };
    let doc = render_params(&p);
    assert_eq!(parse_params(&doc), Some(p));

    let q = LaunchParameter::new_from_default_hor();
    let doc = render_params(&q);
    assert_eq!(parse_params(&doc), Some(q));
}

#[test]
fn params_document_rejects_tampering() {
    let p = LaunchParameter::new_from_default_hor();
    let mut doc = render_params(&p);
    doc.push(b'x');
    assert_eq!(parse_params(&doc), None);
    assert_eq!(parse_params(b"not a document"), None);
}

#[test]
fn params_document_is_valid_toml() {
    let p = LaunchParameter {
        use_gravity: false,
        start_velocity: 367_000_000,
        distance_to_target: 2_000_000_000,
        target_speed: 343_000_000,
        altitude: 4650,
    };
    let text = String::from_utf8(render_params(&p)).unwrap();
    let table: toml::Table = toml::from_str(&text).unwrap();
    assert_eq!(table["use_gravity"], toml::Value::Boolean(false));
    assert_eq!(table["start_velocity"], toml::Value::Float(367.0));
    assert_eq!(table["distance_to_target"], toml::Value::Float(2000.0));
    assert_eq!(table["target_speed"], toml::Value::Float(343.0));
    assert_eq!(table["altitude"], toml::Value::Integer(4650));
}

#[test]
fn csv_table_exact_row() {
    let a = vec![1_000_000i64];
    let v = vec![2_000_000i64];
    let d = vec![3_000_000i64];
    let table = render_csv(&a, &v, &d, 2_000_000).unwrap();
    let expected = b"acceleration;velocity;distance_traveled;turn_radius\n\
                     1.000000;2.000000;3.000000;2.000000\n"
        .to_vec();
    assert_eq!(table, expected);
}

#[test]
fn csv_table_rejects_nonpositive_accel_limit() {
    let a = vec![1_000_000i64];
    let v = vec![2_000_000i64];
    let d = vec![3_000_000i64];
    assert_eq!(render_csv(&a, &v, &d, 0), None);
    assert_eq!(render_csv(&a, &v, &d, -5), None);
}

#[test]
fn archive_is_zip_shaped() {
    let m = sample_missile();
    let p = LaunchParameter {
        use_gravity: false,
        start_velocity: 367_000_000,
        distance_to_target: 0,
        target_speed: 0,
        altitude: 0,
    };
    let results = generate(&m, p, 100_000).unwrap();
    let bytes = results.as_csv(None, &m).unwrap();
    // A local zip header, not any of the documents handed in.
    assert_eq!(&bytes[0..2], b"PK");
    let doc = render_params(&p);
    assert_ne!(bytes, doc);
    // The image entry changes the archive.
    let with_plot = results.as_csv(Some(&[1u8, 2, 3]), &m).unwrap();
    assert_ne!(bytes, with_plot);
}

#[test]
fn archive_roundtrips_through_a_reader() {
    let m = sample_missile();
    let p = LaunchParameter::new_from_default_hor();
    let results = generate(&m, p, 100_000).unwrap();
    let bytes = results.as_csv(None, &m).unwrap();
    let mut archive = zip::ZipArchive::new(std::io::Cursor::new(bytes)).unwrap();
    let mut doc = Vec::new();
    std::io::Read::read_to_end(
        &mut archive.by_name("sample/launch_parameters.toml").unwrap(),
        &mut doc,
    )
    .unwrap();
    // The embedded parameters document parses back to the very input.
    assert_eq!(parse_params(&doc), Some(p));
}

#[test]
fn catalog_selection() {
    let mut a = sample_missile();
    a.name = String::from("aim9b");
    let mut b = sample_missile();
    b.name = String::from("r60");
    let catalog = vec![a, b];
    assert_eq!(select_by_name(&catalog, &String::from("r60")), Some(1));
    assert_eq!(select_by_name(&catalog, &String::from("aim9b")), Some(0));
    assert_eq!(select_by_name(&catalog, &String::from("missing")), None);
}
