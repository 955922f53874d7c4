use trident::tracker_communication::{Event, TrackerRequest};

#[test]
fn start_request_encodes_info_hash() {
    let r = TrackerRequest::start_request(&[0x12, 0x34, b'a', 0xff, b'~', b' '], String::from("id"), 6881);
    assert_eq!(r.info_hash, "%124a%FF~%20");
    assert_eq!(r.peer_id, "id");
    assert_eq!(r.port, 6881);
    assert_eq!((r.uploaded, r.downloaded, r.left), (0, 0, 0));
    assert_eq!((r.compact, r.no_peer_id, r.numwant), (1, 1, 50));
    assert_eq!(r.event, Event::Started);
    assert!(r.trackerid.is_none());
}

#[test]
fn url_lists_every_parameter() {
    let r = TrackerRequest::start_request(&[0xab, b'Z'], String::from("-TD1000-111111111111"), 6881);
    assert_eq!(
        r.to_url("http://tracker.example/announce"),
        "http://tracker.example/announce?info_hash=%ABZ&peer_id=-TD1000-111111111111&port=6881&uploaded=0&downloaded=0&left=0&compact=1&no_peer_id=1&event=started&numwant=50"
    );
}

#[test]
fn url_with_tracker_id_and_negative_numbers() {
    let mut r = TrackerRequest::start_request(&[], String::from("p"), -1);
    r.trackerid = Some(String::from("xyz"));
    r.event = Event::Completed;
    r.left = i64::MIN;
    r.uploaded = 1234567890;
    assert_eq!(
        r.to_url("u"),
        "u?info_hash=&peer_id=p&port=-1&uploaded=1234567890&downloaded=0&left=-9223372036854775808&compact=1&no_peer_id=1&event=completed&numwant=50&trackerid=xyz"
    );
}
