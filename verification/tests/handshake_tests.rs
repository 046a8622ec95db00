use ipc_teal::handshake::{
    check_fd_message, check_receiver_file, check_receiver_map, check_receiver_reply, check_seals,
    fd_from_ancillary, seals, seals_match, ControlMessage, HandshakeError, SEALS_BITS,
};
use ipc_teal::layout::{MAX_RECV_STATE_FILE, SIZE_RECV_STATE};

fn fds(v: &[i32]) -> ControlMessage {
    ControlMessage::FileDescriptors(v.to_vec())
}

#[test]
fn seals_are_the_memfile_set() {
    let expected = memfile::Seal::FutureWrite | memfile::Seal::Grow | memfile::Seal::Shrink | memfile::Seal::Seal;
    assert_eq!(seals(), expected.bits());
    assert_eq!(seals(), SEALS_BITS);
    assert_eq!(SEALS_BITS, 0x17);
    assert!(seals_match(SEALS_BITS));
    assert!(!seals_match(SEALS_BITS | 8));
    assert_eq!(check_seals(SEALS_BITS), Ok(()));
    assert_eq!(check_seals(0), Err(HandshakeError::BadSeals));
}

#[test]
fn single_fd_is_picked() {
    assert_eq!(fd_from_ancillary(&vec![fds(&[7])]), Ok(7));
    assert_eq!(fd_from_ancillary(&vec![fds(&[]), fds(&[9]), fds(&[])]), Ok(9));
}

#[test]
fn missing_or_extra_fds_are_refused() {
    assert_eq!(fd_from_ancillary(&vec![]), Err(HandshakeError::InvalidData));
    assert_eq!(fd_from_ancillary(&vec![fds(&[])]), Err(HandshakeError::InvalidData));
    assert_eq!(fd_from_ancillary(&vec![fds(&[3, 4])]), Err(HandshakeError::InvalidData));
    assert_eq!(fd_from_ancillary(&vec![fds(&[3]), fds(&[4])]), Err(HandshakeError::InvalidData));
    assert_eq!(fd_from_ancillary(&vec![fds(&[3]), ControlMessage::Other]), Err(HandshakeError::InvalidData));
    assert_eq!(fd_from_ancillary(&vec![ControlMessage::Other, fds(&[3])]), Err(HandshakeError::InvalidData));
}

#[test]
fn fd_packet_checks_fds_before_data() {
    assert_eq!(check_fd_message(0, &vec![fds(&[5])]), Ok(5));
    assert_eq!(check_fd_message(3, &vec![fds(&[5])]), Err(HandshakeError::NonZeroRead));
    assert_eq!(check_fd_message(3, &vec![]), Err(HandshakeError::InvalidData));
    assert_eq!(HandshakeError::NonZeroRead.message(), "non-zero read data on FD ipc message");
    assert_eq!(HandshakeError::BadSeals.message(), "seals weren't set up as expected");
}

#[test]
fn receiver_reply_checks() {
    assert_eq!(check_receiver_reply(0, &vec![fds(&[11])]), Ok(11));
    assert_eq!(check_receiver_reply(1, &vec![fds(&[11])]), Err(HandshakeError::InvalidData));
    assert_eq!(check_receiver_reply(0, &vec![fds(&[1, 2])]), Err(HandshakeError::InvalidData));
    assert_eq!(check_receiver_file(SEALS_BITS, MAX_RECV_STATE_FILE), Ok(()));
    assert_eq!(check_receiver_file(SEALS_BITS, MAX_RECV_STATE_FILE + 1), Err(HandshakeError::InvalidData));
    assert_eq!(check_receiver_file(1, 10), Err(HandshakeError::InvalidData));
    assert_eq!(check_receiver_map(SIZE_RECV_STATE), Ok(()));
    assert_eq!(check_receiver_map(SIZE_RECV_STATE - 1), Err(HandshakeError::InvalidData));
}
