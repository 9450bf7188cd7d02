use asimov_core::AsimovError;
use asimov_core::Namespace;
use asimov_core::RawString;
use asimov_core::render::i64_to_string;
use asimov_core::render::id_list_string;
use asimov_core::render::u64_to_string;

#[test]
fn test_namespace_round_trip() {
    let ns = Namespace::new("orders".to_string()).unwrap();
    assert_eq!(ns.as_str(), "orders");
    assert_eq!(ns.into_string(), "orders");

    let ns2 = Namespace::new("a".to_string()).unwrap();
    assert_eq!(ns2.as_str(), "a");

    let long = "namespace-with-digits-0123456789_and_punct.!";
    let ns3 = Namespace::new(long.to_string()).unwrap();
    assert_eq!(ns3.as_str(), long);
}

#[test]
fn test_namespace_rejects_empty_and_non_ascii() {
    assert!(matches!(
        Namespace::new("".to_string()),
        Err(AsimovError::InvalidNamespace)
    ));
    assert!(matches!(
        Namespace::new("caf\u{00e9}".to_string()),
        Err(AsimovError::InvalidNamespace)
    ));
    assert!(matches!(
        Namespace::new("\u{1f600}".to_string()),
        Err(AsimovError::InvalidNamespace)
    ));
}

#[test]
fn test_namespace_equality() {
    let a = Namespace::new("same".to_string()).unwrap();
    let b = Namespace::new("same".to_string()).unwrap();
    let c = Namespace::new("other".to_string()).unwrap();
    assert!(a == b);
    assert!(a != c);
}

#[test]
fn test_raw_string() {
    let r = RawString::new("plain".to_string());
    assert_eq!(r.as_str(), "plain");
    assert_eq!(r.0, "plain");
}

#[test]
fn test_decimal_rendering() {
    assert_eq!(u64_to_string(0), "0");
    assert_eq!(u64_to_string(9), "9");
    assert_eq!(u64_to_string(10), "10");
    assert_eq!(u64_to_string(40960), "40960");
    assert_eq!(u64_to_string(u64::MAX), "18446744073709551615");
    assert_eq!(i64_to_string(-1), "-1");
    assert_eq!(i64_to_string(i64::MIN), "-9223372036854775808");
    assert_eq!(i64_to_string(7), "7");
}

#[test]
fn test_id_list_rendering() {
    assert_eq!(id_list_string(&vec![]), "[]");
    assert_eq!(id_list_string(&vec![5]), "[5]");
    assert_eq!(id_list_string(&vec![5, 17, 2]), "[5, 17, 2]");
}

#[test]
fn test_error_messages() {
    assert_eq!(
        AsimovError::InvalidNamespace.message(),
        "Invalid namespace"
    );
    assert_eq!(
        AsimovError::KeyNotFound("docs".to_string()).message(),
        "Key docs not found"
    );
    assert_eq!(
        AsimovError::KeyCollision("docs".to_string()).message(),
        "Key docs is already present"
    );
    assert_eq!(
        AsimovError::Input("oops".to_string()).message(),
        "Context error: oops"
    );
    assert_eq!(AsimovError::Hora("h".to_string()).message(), "h");
}
