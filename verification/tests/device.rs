use rgblitz::device::{choose_network, duty_cycles, network_password, raw_duty_cycles};

#[test]
fn duty_cycles_are_one_above_levels() {
    assert_eq!(duty_cycles([0, 128, 255]), [1, 129, 256]);
}

#[test]
fn raw_duty_cycles_invert_levels() {
    assert_eq!(raw_duty_cycles([0, 128, 255]), [255, 127, 0]);
}

#[test]
fn known_networks() {
    assert_eq!(network_password("WifiCR"), Some(Some("CR2546938")));
    assert_eq!(network_password("UTN_LIBRE"), Some(None));
    assert_eq!(network_password("wificr"), None);
    assert_eq!(network_password("WifiCR "), None);
    assert_eq!(network_password(""), None);
}

#[test]
fn first_known_network_wins() {
    assert_eq!(choose_network(&["cafe", "UTN_LIBRE", "WifiCR"]), Some((1, None)));
    assert_eq!(choose_network(&["WifiCR", "UTN_LIBRE"]), Some((0, Some("CR2546938"))));
    assert_eq!(choose_network(&["cafe", "home"]), None);
    assert_eq!(choose_network(&[]), None);
}
