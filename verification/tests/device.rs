use voyager_disco::device::{
    device_label, device_listing, device_serial, filtered_device_paths, has_devices,
    is_oryx_raw_hid, parse_device_filter, HidDeviceInfo, SelectError, PRODUCT_ID, USAGE_ID, USAGE_PAGE,
    VENDOR_ID,
};

fn keyboard(serial: Option<&str>, product: Option<&str>, path: Option<&str>) -> HidDeviceInfo {
    HidDeviceInfo {
        vendor_id: VENDOR_ID,
        product_id: PRODUCT_ID,
        usage_page: USAGE_PAGE,
        usage: USAGE_ID,
        serial_number: serial.map(|s| s.to_string()),
        product_string: product.map(|s| s.to_string()),
        path: path.map(|s| s.to_string()),
    }
}

fn other_interface(serial: &str) -> HidDeviceInfo {
    HidDeviceInfo {
        vendor_id: VENDOR_ID,
        product_id: PRODUCT_ID,
        usage_page: 0x0001,
        usage: 0x06,
        serial_number: Some(serial.to_string()),
        product_string: Some("Voyager".to_string()),
        path: Some("/dev/hidraw9".to_string()),
    }
}

fn filter(s: &str) -> Option<Vec<String>> {
    parse_device_filter(&Some(s.to_string()))
}

#[test]
fn filter_absent_means_no_filter() {
    assert_eq!(parse_device_filter(&None), None);
}

#[test]
fn filter_single_serial() {
    assert_eq!(filter("ABC123"), Some(vec!["ABC123".to_string()]));
}

#[test]
fn filter_comma_separated_serials() {
    assert_eq!(
        filter("ABC123,DEF456"),
        Some(vec!["ABC123".to_string(), "DEF456".to_string()])
    );
}

#[test]
fn filter_trims_and_drops_empty_pieces() {
    assert_eq!(
        filter(" a , ,b,\t"),
        Some(vec!["a".to_string(), "b".to_string()])
    );
    assert_eq!(filter(""), Some(vec![]));
    assert_eq!(filter(",,,"), Some(vec![]));
}

#[test]
fn filter_trims_unicode_whitespace() {
    assert_eq!(
        filter("\u{3000}x y\u{a0},\u{2009}z"),
        Some(vec!["x y".to_string(), "z".to_string()])
    );
}

#[test]
fn oryx_interface_is_recognised() {
    assert!(is_oryx_raw_hid(&keyboard(Some("A"), None, None)));
    assert!(!is_oryx_raw_hid(&other_interface("A")));
    let mut foreign = keyboard(Some("A"), None, None);
    foreign.vendor_id = 0x1234;
    assert!(!is_oryx_raw_hid(&foreign));
    let mut other_product = keyboard(Some("A"), None, None);
    other_product.product_id = 0x1978;
    assert!(!is_oryx_raw_hid(&other_product));
}

#[test]
fn serial_and_label_defaults() {
    let bare = keyboard(None, None, None);
    assert_eq!(device_serial(&bare), "unknown");
    assert_eq!(device_label(&bare), "ZSA Keyboard [unknown]");
    let named = keyboard(Some("ABC123"), Some("Voyager"), None);
    assert_eq!(device_label(&named), "Voyager [ABC123]");
}

#[test]
fn listing_shows_only_keyboards() {
    let all = vec![
        other_interface("X"),
        keyboard(Some("ABC123"), Some("Voyager"), Some("/dev/hidraw3")),
        keyboard(None, None, None),
    ];
    assert_eq!(
        device_listing(&all),
        vec![
            "ABC123  Voyager  /dev/hidraw3".to_string(),
            "unknown  ZSA Keyboard  ?".to_string(),
        ]
    );
    assert!(has_devices(&all));
    assert!(!has_devices(&vec![other_interface("X")]));
    assert!(device_listing(&vec![]).is_empty());
}

#[test]
fn no_keyboard_is_an_error() {
    let all = vec![other_interface("X")];
    assert!(matches!(
        filtered_device_paths(&all, &None),
        Err(SelectError::NoKeyboards)
    ));
    assert!(matches!(
        filtered_device_paths(&vec![], &filter("X")),
        Err(SelectError::NoKeyboards)
    ));
}

#[test]
fn without_filter_every_keyboard_is_chosen() {
    let all = vec![
        keyboard(Some("A"), None, None),
        other_interface("A"),
        keyboard(Some("B"), None, None),
    ];
    assert_eq!(filtered_device_paths(&all, &None).unwrap(), vec![0, 2]);
}

#[test]
fn filter_chooses_in_request_order() {
    let all = vec![
        keyboard(Some("A"), None, None),
        other_interface("B"),
        keyboard(Some("B"), None, None),
        keyboard(None, None, None),
    ];
    assert_eq!(
        filtered_device_paths(&all, &filter("B,A")).unwrap(),
        vec![2, 0]
    );
    assert_eq!(
        filtered_device_paths(&all, &filter("unknown")).unwrap(),
        vec![3]
    );
}

#[test]
fn filter_takes_first_keyboard_with_a_serial() {
    let all = vec![
        keyboard(Some("A"), Some("first"), None),
        keyboard(Some("A"), Some("second"), None),
    ];
    assert_eq!(filtered_device_paths(&all, &filter("A,A")).unwrap(), vec![0, 0]);
}

#[test]
fn unknown_serial_names_the_available_ones() {
    let all = vec![
        keyboard(Some("A"), None, None),
        other_interface("Z"),
        keyboard(None, None, None),
    ];
    match filtered_device_paths(&all, &filter("A,Z,Q")) {
        Err(SelectError::SerialNotFound { serial, available }) => {
            assert_eq!(serial, "Z");
            assert_eq!(available, vec!["A".to_string(), "unknown".to_string()]);
        }
        other => panic!("unexpected {other:?}"),
    }
}

#[test]
fn selection_error_messages() {
    assert_eq!(
        SelectError::NoKeyboards.message(),
        "No ZSA keyboards found. Is one connected? Is Keymapp disconnected?"
    );
    let all = vec![keyboard(Some("A"), None, None), keyboard(Some("B"), None, None)];
    let e = filtered_device_paths(&all, &filter("C")).unwrap_err();
    assert_eq!(e.message(), "Device with serial \"C\" not found. Available: A, B");
    let lone = SelectError::SerialNotFound { serial: "Q".to_string(), available: vec![] };
    assert_eq!(lone.message(), "Device with serial \"Q\" not found. Available: ");
}
