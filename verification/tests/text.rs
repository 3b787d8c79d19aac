use tangle_channels::bytes::create_payload;
use tangle_channels::link::get_hash;
use tangle_channels::link::Link;
use tangle_channels::report::payload_to_text;
use tangle_channels::text::random_seed;
use tangle_channels::text::seed_from_indices;

#[test]
fn random_seed_has_81_characters_of_the_alphabet() {
    let seed = random_seed();
    assert_eq!(seed.chars().count(), 81);
    assert!(seed.chars().all(|c| "ABCDEFGHIJKLMNOPQRSTUVWXYZ9".contains(c)));
}

#[test]
fn random_seeds_differ() {
    assert_ne!(random_seed(), random_seed());
}

#[test]
fn seed_from_indices_spells_the_alphabet() {
    assert_eq!(seed_from_indices(&vec![0, 1, 25, 26, 8]), "ABZ9I");
    assert_eq!(seed_from_indices(&vec![]), "");
}

#[test]
fn create_payload_holds_the_utf8_bytes() {
    assert_eq!(create_payload("PUBLIC MESSAGE").0, b"PUBLIC MESSAGE".to_vec());
    assert_eq!(create_payload("").0, Vec::<u8>::new());
    assert_eq!(create_payload("é").0, vec![0xc3, 0xa9]);
}

#[test]
fn get_hash_is_the_hexadecimal_blake2b_digest_of_both_components() {
    let empty = Link { appinst: vec![], msgid: vec![] };
    assert_eq!(
        get_hash(&empty),
        "0e5751c026e543b2e8ab2eb06099daa1d1e5df47778f7787faab45cdf12fe3a8"
    );
    let abc = Link { appinst: b"a".to_vec(), msgid: b"bc".to_vec() };
    assert_eq!(
        get_hash(&abc),
        "bddd813c634239723171ef3fee98579b94964e3bb1cb3e427262c8c068d52319"
    );
    let split_elsewhere = Link { appinst: b"ab".to_vec(), msgid: b"c".to_vec() };
    assert_eq!(get_hash(&abc), get_hash(&split_elsewhere));
}

#[test]
fn links_are_written_and_read_in_hexadecimal() {
    let link = Link { appinst: (0u8..40).collect(), msgid: (200u8..212).collect() };
    let appinst = link.appinst_text();
    let msgid = link.msgid_text();
    assert_eq!(
        appinst,
        "000102030405060708090a0b0c0d0e0f101112131415161718191a1b1c1d1e1f2021222324252627"
    );
    assert_eq!(msgid, "c8c9cacbcccdcecfd0d1d2d3");
    let read = Link::from_str(&appinst, &msgid).unwrap();
    assert_eq!(read.appinst, link.appinst);
    assert_eq!(read.msgid, link.msgid);
    let upper = Link::from_str(&appinst.to_uppercase(), &msgid.to_uppercase()).unwrap();
    assert_eq!(upper.msgid, link.msgid);
}

#[test]
fn texts_that_spell_no_link_are_refused() {
    let appinst = "00".repeat(40);
    let msgid = "00".repeat(12);
    assert!(Link::from_str(&appinst, &msgid).is_some());
    assert!(Link::from_str(&appinst[2..], &msgid).is_none());
    assert!(Link::from_str(&appinst, &msgid[1..]).is_none());
    assert!(Link::from_str(&appinst, &"0g".repeat(12)).is_none());
    assert!(Link::from_str(&"é".repeat(40), &msgid).is_none());
    assert!(Link::from_str("", "").is_none());
}

#[test]
fn payloads_are_shown_as_text_or_in_hexadecimal() {
    assert_eq!(payload_to_text(b"PUBLIC MESSAGE"), "PUBLIC MESSAGE");
    assert_eq!(payload_to_text(b""), "");
    assert_eq!(payload_to_text(&[0xc3, 0xa9]), "é");
    assert_eq!(payload_to_text(&[0xff, 0x00, 0x10]), "0xff0010");
}
