use peer_wire::pwp::{ChokeFlag, Connection, InterestFlag, Message};

fn fresh() -> Connection {
    let conn = Connection::default();
    assert_eq!(conn.us_choking, ChokeFlag::Choked);
    assert_eq!(conn.us_interested, InterestFlag::NotInterested);
    assert_eq!(conn.them_choking, ChokeFlag::Choked);
    assert_eq!(conn.them_interested, InterestFlag::NotInterested);
    conn
}

#[test]
fn receive_unchoke_flips_only_their_choke_flag() {
    let mut conn = fresh();
    conn.on_receive(&Message::Unchoke);
    assert_eq!(conn.them_choking, ChokeFlag::Unchoked);
    assert_eq!(conn.us_choking, ChokeFlag::Choked);
    assert_eq!(conn.us_interested, InterestFlag::NotInterested);
    assert_eq!(conn.them_interested, InterestFlag::NotInterested);
}

#[test]
fn receive_choke_is_a_legal_no_op_when_already_choked() {
    let mut conn = fresh();
    conn.on_receive(&Message::Choke);
    assert_eq!(conn.them_choking, ChokeFlag::Choked);
    assert_eq!(conn.us_choking, ChokeFlag::Choked);
    assert_eq!(conn.us_interested, InterestFlag::NotInterested);
    assert_eq!(conn.them_interested, InterestFlag::NotInterested);
}

#[test]
fn receive_interested_flips_only_their_interest_flag() {
    let mut conn = fresh();
    conn.on_receive(&Message::Interested);
    assert_eq!(conn.them_interested, InterestFlag::Interested);
    assert_eq!(conn.them_choking, ChokeFlag::Choked);
    assert_eq!(conn.us_choking, ChokeFlag::Choked);
    assert_eq!(conn.us_interested, InterestFlag::NotInterested);
}

#[test]
fn receive_uninterested_restores_their_interest_flag() {
    let mut conn = fresh();
    conn.on_receive(&Message::Interested);
    conn.on_receive(&Message::Uninterested);
    assert_eq!(conn.them_interested, InterestFlag::NotInterested);
    assert_eq!(conn.them_choking, ChokeFlag::Choked);
    assert_eq!(conn.us_choking, ChokeFlag::Choked);
    assert_eq!(conn.us_interested, InterestFlag::NotInterested);
}

#[test]
fn send_side_mirrors_receive_side() {
    let mut conn = fresh();
    conn.on_send(&Message::Unchoke);
    assert_eq!(conn.us_choking, ChokeFlag::Unchoked);
    assert_eq!(conn.them_choking, ChokeFlag::Choked);
    conn.on_send(&Message::Interested);
    assert_eq!(conn.us_interested, InterestFlag::Interested);
    assert_eq!(conn.them_interested, InterestFlag::NotInterested);
    conn.on_send(&Message::Choke);
    conn.on_send(&Message::Uninterested);
    assert_eq!(conn.us_choking, ChokeFlag::Choked);
    assert_eq!(conn.us_interested, InterestFlag::NotInterested);
}

#[test]
fn data_messages_leave_the_state_untouched() {
    let mut conn = fresh();
    conn.on_receive(&Message::Unchoke);
    conn.on_receive(&Message::Have(7));
    conn.on_receive(&Message::KeepAlive);
    conn.on_receive(&Message::Bitfield(vec![0xF0]));
    conn.on_receive(&Message::Request { index: 1, offset: 2, length: 3 });
    conn.on_receive(&Message::Block { index: 1, offset: 2, data: vec![9] });
    conn.on_receive(&Message::Cancel { index: 1, offset: 2, length: 3 });
    conn.on_send(&Message::KeepAlive);
    assert_eq!(conn.them_choking, ChokeFlag::Unchoked);
    assert_eq!(conn.us_choking, ChokeFlag::Choked);
    assert_eq!(conn.us_interested, InterestFlag::NotInterested);
    assert_eq!(conn.them_interested, InterestFlag::NotInterested);
}
