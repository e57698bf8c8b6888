use sps_core::error::SpsError;
use sps_core::quarantine::{
    ensure_quarantine_attribute, get_timestamp_hex, is_app_bundle_name, has_quarantine_attribute, hex_lower,
    new_quarantine_value, quarantine_value, AttrLookup,
};

fn is_upper_uuid(u: &[u8]) -> bool {
    u.len() == 36
        && u.iter().enumerate().all(|(i, &c)| {
            if [8, 13, 18, 23].contains(&i) {
                c == b'-'
            } else {
                c.is_ascii_digit() || (b'A'..=b'F').contains(&c)
            }
        })
}

#[test]
fn hex_is_lowercase_without_padding() {
    assert_eq!(hex_lower(0), b"0".to_vec());
    assert_eq!(hex_lower(255), b"ff".to_vec());
    assert_eq!(hex_lower(0x6553_f100), b"6553f100".to_vec());
    assert_eq!(hex_lower(u64::MAX), b"ffffffffffffffff".to_vec());
}

#[test]
fn value_has_the_fixed_shape() {
    let v = quarantine_value(b"6553f100", "foo", b"0A1B2C3D-0000-4000-8000-000000000000");
    assert_eq!(v, b"0181;6553f100;foo;0A1B2C3D-0000-4000-8000-000000000000".to_vec());
}

#[test]
fn fresh_value_is_stamped_now_with_a_new_identifier() {
    let v = String::from_utf8(new_quarantine_value("sps-extractor")).unwrap();
    let parts: Vec<&str> = v.split(';').collect();
    assert_eq!(parts.len(), 4);
    assert_eq!(parts[0], "0181");
    let secs = u64::from_str_radix(parts[1], 16).unwrap();
    assert!(secs > 1_600_000_000);
    assert_eq!(parts[2], "sps-extractor");
    assert!(is_upper_uuid(parts[3].as_bytes()));
    let ts = get_timestamp_hex();
    assert!(!ts.is_empty() && ts.iter().all(|c| c.is_ascii_hexdigit() && !c.is_ascii_uppercase()));
}

#[test]
fn presence_follows_the_lookup() {
    assert_eq!(has_quarantine_attribute(&AttrLookup::Present(b"x".to_vec())), Ok(true));
    assert_eq!(has_quarantine_attribute(&AttrLookup::Absent), Ok(false));
    assert!(matches!(
        has_quarantine_attribute(&AttrLookup::Failed("denied".to_string())),
        Err(SpsError::Io(_))
    ));
}

#[test]
fn ensure_leaves_an_existing_value() {
    let r = ensure_quarantine_attribute(&AttrLookup::Present(b"0081;0;user;X".to_vec()), "foo");
    assert_eq!(r, Ok(None));
}

#[test]
fn ensure_twice_keeps_the_first_value() {
    let first = ensure_quarantine_attribute(&AttrLookup::Absent, "foo").unwrap().unwrap();
    assert!(first.starts_with(b"0181;"));
    let second = ensure_quarantine_attribute(&AttrLookup::Present(first.clone()), "foo").unwrap();
    assert_eq!(second, None);
}

#[test]
fn ensure_reports_a_failed_lookup() {
    assert!(matches!(
        ensure_quarantine_attribute(&AttrLookup::Failed("io".to_string()), "foo"),
        Err(SpsError::Io(_))
    ));
}

#[test]
fn identifier_is_a_version_four_uuid() {
    let v = new_quarantine_value("a");
    let u = &v[v.len() - 36..];
    assert_eq!(u[14], b'4');
    assert!([b'8', b'9', b'A', b'B'].contains(&u[19]));
}

#[test]
fn app_bundles_are_recognised_by_extension() {
    assert!(is_app_bundle_name(b"Foo.app"));
    assert!(is_app_bundle_name(b"a.b.app"));
    assert!(!is_app_bundle_name(b".app"));
    assert!(!is_app_bundle_name(b"Foo.apps"));
    assert!(!is_app_bundle_name(b"app"));
}
