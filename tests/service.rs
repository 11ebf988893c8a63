use secure_random::service::{
    check_choose_params, check_generate_params, is_local_ip, next_port_step, IpAddress, PortReply,
    PortStep, RequestRejection, MAX_COUNT, MAX_LENGTH,
};
use secure_random::LocalNetworkOnly;

#[test]
fn generate_params_checked_in_order() {
    assert_eq!(check_generate_params(false, false, false, false, 0), Err(RequestRejection::InvalidLength));
    assert_eq!(check_generate_params(true, false, false, false, MAX_LENGTH + 1), Err(RequestRejection::InvalidLength));
    assert_eq!(check_generate_params(false, false, false, false, 5), Err(RequestRejection::NoCharset));
    assert_eq!(check_generate_params(false, false, false, true, MAX_LENGTH), Ok(()));
    assert_eq!(check_generate_params(true, false, false, false, 1), Ok(()));
}

#[test]
fn choose_params_checked_in_order() {
    assert_eq!(check_choose_params(10, 0), Err(RequestRejection::InvalidCount));
    assert_eq!(check_choose_params(500, MAX_COUNT + 1), Err(RequestRejection::InvalidCount));
    assert_eq!(check_choose_params(3, 4), Err(RequestRejection::CountAboveItems));
    assert_eq!(check_choose_params(4, 4), Ok(()));
}

#[test]
fn local_addresses() {
    assert!(is_local_ip(&IpAddress::V4([127, 0, 0, 1])));
    assert!(is_local_ip(&IpAddress::V4([10, 1, 2, 3])));
    assert!(is_local_ip(&IpAddress::V4([172, 16, 0, 1])));
    assert!(is_local_ip(&IpAddress::V4([172, 31, 255, 255])));
    assert!(!is_local_ip(&IpAddress::V4([172, 32, 0, 1])));
    assert!(is_local_ip(&IpAddress::V4([192, 168, 1, 1])));
    assert!(!is_local_ip(&IpAddress::V4([8, 8, 8, 8])));
    assert!(is_local_ip(&IpAddress::V6([0, 0, 0, 0, 0, 0, 0, 1])));
    assert!(!is_local_ip(&IpAddress::V6([0xfe80, 0, 0, 0, 0, 0, 0, 1])));
    assert!(!is_local_ip(&IpAddress::V6([0, 0, 0, 0, 0, 0, 0, 0])));
}

#[test]
fn filter_refuses_unknown_peer() {
    let f = LocalNetworkOnly;
    assert!(f.admits(Some(IpAddress::V4([192, 168, 0, 7]))));
    assert!(!f.admits(Some(IpAddress::V4([1, 1, 1, 1]))));
    assert!(!f.admits(None));
}

#[test]
fn port_steps() {
    assert_eq!(next_port_step(1, PortReply::Port(8080)), PortStep::Done(8080));
    assert_eq!(next_port_step(3, PortReply::Port(65536 + 5)), PortStep::Done(5));
    assert_eq!(next_port_step(1, PortReply::TransportFailed), PortStep::Retry);
    assert_eq!(next_port_step(2, PortReply::BadBody), PortStep::Retry);
    assert_eq!(next_port_step(3, PortReply::TransportFailed), PortStep::GiveUp);
    assert_eq!(next_port_step(3, PortReply::Refused), PortStep::GiveUp);
    assert_eq!(next_port_step(3, PortReply::NoPort), PortStep::GiveUp);
}
