use tangle_channels::error::Error;
use tangle_channels::link::derive_link;
use tangle_channels::link::application_instance;
use tangle_channels::link::Link;
use tangle_channels::transport::Ledger;

fn link(n: u8) -> Link {
    Link { appinst: vec![n; 40], msgid: vec![n; 12] }
}

#[test]
fn what_is_published_is_fetched() {
    let mut ledger = Ledger::new();
    assert_eq!(ledger.len(), 0);
    assert_eq!(ledger.fetch(&link(1)), Ok(None));
    ledger.publish(&link(1), b"one").unwrap();
    ledger.publish(&link(2), b"two").unwrap();
    assert_eq!(ledger.len(), 2);
    assert_eq!(ledger.fetch(&link(1)), Ok(Some(b"one".to_vec())));
    assert_eq!(ledger.fetch(&link(2)), Ok(Some(b"two".to_vec())));
    assert_eq!(ledger.fetch(&link(3)), Ok(None));
    let links = ledger.links();
    assert_eq!(links.len(), 2);
    assert_eq!(links[0].msgid, vec![1; 12]);
    assert_eq!(links[1].msgid, vec![2; 12]);
}

#[test]
fn a_link_is_taken_once() {
    let mut ledger = Ledger::new();
    ledger.publish(&link(1), b"one").unwrap();
    ledger.publish(&link(1), b"one").unwrap();
    assert_eq!(ledger.len(), 1);
    assert_eq!(ledger.publish(&link(1), b"other").unwrap_err(), Error::TransportError);
    assert_eq!(ledger.publish(&link(1), b"").unwrap_err(), Error::TransportError);
    assert_eq!(ledger.len(), 1);
    assert_eq!(ledger.fetch(&link(1)), Ok(Some(b"one".to_vec())));
    let half = Link { appinst: vec![1; 40], msgid: vec![2; 12] };
    ledger.publish(&half, b"other").unwrap();
    assert_eq!(ledger.fetch(&half), Ok(Some(b"other".to_vec())));
    assert_eq!(ledger.fetch(&link(1)), Ok(Some(b"one".to_vec())));
}

#[test]
fn links_follow_from_channel_publisher_lane_and_slot() {
    let publisher = [3u8; 32];
    let appinst = application_instance(&publisher, 258);
    assert_eq!(appinst.len(), 40);
    assert_eq!(&appinst[..32], &publisher);
    assert_eq!(&appinst[32..], &[2, 1, 0, 0, 0, 0, 0, 0]);
    let first = derive_link(&appinst, &publisher, 3, 1);
    assert_eq!(first.appinst, appinst);
    assert_eq!(first.msgid.len(), 12);
    assert!(first.is_well_formed());
    let again = derive_link(&appinst, &publisher, 3, 1);
    assert!(first.same(&again));
    assert!(!first.same(&derive_link(&appinst, &publisher, 3, 2)));
    assert!(!first.same(&derive_link(&appinst, &publisher, 2, 1)));
    assert!(!first.same(&derive_link(&appinst, &[4u8; 32], 3, 1)));
    assert!(!first.same(&derive_link(&application_instance(&publisher, 259), &publisher, 3, 1)));
    assert_ne!(first.msgid, appinst[..12].to_vec());
    let mut bytes = appinst.clone();
    bytes.extend_from_slice(&first.msgid);
    assert_eq!(first.bytes(), bytes);
    assert!(!Link { appinst: vec![0; 39], msgid: vec![0; 12] }.is_well_formed());
}

#[test]
fn a_ledger_out_of_reach_fails_and_keeps_what_it_holds() {
    let mut ledger = Ledger::new();
    assert!(ledger.is_online());
    ledger.publish(&link(1), b"one").unwrap();
    ledger.set_online(false);
    assert!(!ledger.is_online());
    assert_eq!(ledger.fetch(&link(1)), Err(Error::TransportError));
    assert_eq!(ledger.fetch(&link(2)), Err(Error::TransportError));
    assert_eq!(ledger.publish(&link(1), b"one").unwrap_err(), Error::TransportError);
    assert_eq!(ledger.publish(&link(2), b"two").unwrap_err(), Error::TransportError);
    assert_eq!(ledger.len(), 1);
    ledger.set_online(true);
    assert_eq!(ledger.fetch(&link(1)), Ok(Some(b"one".to_vec())));
    assert_eq!(ledger.fetch(&link(2)), Ok(None));
    ledger.publish(&link(2), b"two").unwrap();
    assert_eq!(ledger.len(), 2);
}
