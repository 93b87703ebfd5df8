use geocache::codec::{entry_name, key_of_entry_name};
use geocache::client::{forecast_url, geocoding_url, ForecastRecord};
use geocache::codec::{decode_record, encode_record, RECORD_LEN};
use geocache::record::CoordinateRecord;
use geocache::resolver::ResolveError;

#[test]
fn encode_exact_form() {
    let rec = CoordinateRecord::from_bits(48.8566f64.to_bits(), 2.3522f64.to_bits());
    let b = encode_record(&rec);
    assert_eq!(b.len(), RECORD_LEN);
    let expected = format!("geo:{:016x},{:016x}", 48.8566f64.to_bits(), 2.3522f64.to_bits());
    assert_eq!(b, expected.into_bytes());
    let zero = CoordinateRecord::from_bits(0, u64::MAX);
    assert_eq!(encode_record(&zero), b"geo:0000000000000000,ffffffffffffffff".to_vec());
}

#[test]
fn decode_round_trip() {
    for (la, lo) in [(0u64, 0u64), (u64::MAX, 1), (0x0123456789abcdef, 0xfedcba9876543210)] {
        let rec = CoordinateRecord::from_bits(la, lo);
        assert_eq!(decode_record(&encode_record(&rec)), Some(rec));
    }
    let neg = CoordinateRecord::from_bits((-0.1276f64).to_bits(), (-89.6501f64).to_bits());
    let back = decode_record(&encode_record(&neg)).unwrap();
    assert_eq!(f64::from_bits(back.latitude_bits), -0.1276);
    assert_eq!(f64::from_bits(back.longitude_bits), -89.6501);
}

#[test]
fn decode_rejects_other_forms() {
    let good = b"geo:0000000000000001,0000000000000002";
    assert_eq!(decode_record(good), Some(CoordinateRecord::from_bits(1, 2)));
    assert_eq!(decode_record(b""), None);
    assert_eq!(decode_record(b"geo:0000000000000001,000000000000002"), None);
    assert_eq!(decode_record(b"geo:0000000000000001,00000000000000020"), None);
    assert_eq!(decode_record(b"gEo:0000000000000001,0000000000000002"), None);
    assert_eq!(decode_record(b"geo:0000000000000001;0000000000000002"), None);
    assert_eq!(decode_record(b"geo:000000000000000A,0000000000000002"), None);
    assert_eq!(decode_record(b"geo:0000000000000001,000000000000000g"), None);
}

#[test]
fn geocoding_url_exact() {
    assert_eq!(
        geocoding_url("Paris"),
        "https://geocoding-api.open-meteo.com/v1/search?name=Paris&count=1&language=en&format=json"
    );
    assert_eq!(
        geocoding_url(""),
        "https://geocoding-api.open-meteo.com/v1/search?name=&count=1&language=en&format=json"
    );
}

#[test]
fn forecast_url_exact() {
    assert_eq!(
        forecast_url("48.8566", "2.3522"),
        "https://api.open-meteo.com/v1/forecast?latitude=48.8566&longitude=2.3522&hourly=temperature_2m"
    );
}

#[test]
fn forecast_series_must_align() {
    let times = vec!["2024-01-01T00:00".to_string(), "2024-01-01T01:00".to_string()];
    let temps = vec![1.5f64.to_bits(), (-2.0f64).to_bits()];
    let f = ForecastRecord::from_parts(
        1.0f64.to_bits(),
        2.0f64.to_bits(),
        "GMT".to_string(),
        times.clone(),
        temps,
    )
    .unwrap();
    assert_eq!(f.hours(), 2);
    assert_eq!(f.timezone(), "GMT");
    assert_eq!(f.latitude_bits(), 1.0f64.to_bits());
    assert_eq!(f.longitude_bits(), 2.0f64.to_bits());
    let (t, v) = f.hour(1);
    assert_eq!(t, "2024-01-01T01:00");
    assert_eq!(f64::from_bits(v), -2.0);
    let bad = ForecastRecord::from_parts(0, 0, "GMT".to_string(), times, vec![0]);
    assert!(matches!(bad, Err(ResolveError::Upstream(_))));
}

#[test]
fn entry_names_round_trip() {
    assert_eq!(entry_name(b"Paris"), b"5061726973".to_vec());
    assert_eq!(entry_name(b""), Vec::<u8>::new());
    assert_eq!(entry_name("Zürich".as_bytes()), b"5ac3bc72696368".to_vec());
    assert_eq!(key_of_entry_name(b"5061726973"), Some(b"Paris".to_vec()));
    assert_eq!(key_of_entry_name(b""), Some(Vec::new()));
    assert_eq!(key_of_entry_name(b"506"), None);
    assert_eq!(key_of_entry_name(b"50617269XY"), None);
    assert_eq!(key_of_entry_name(b"5A"), None);
    let key = " New York\n".as_bytes();
    assert_eq!(key_of_entry_name(&entry_name(key)), Some(key.to_vec()));
}
