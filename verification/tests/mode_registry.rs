use ser_sled::mode::{mode_tag, tag_mode, Mode};
use ser_sled::SerSledDb;

#[test]
fn tags_round_trip() {
    assert_eq!(mode_tag(Mode::Bincode), 0);
    assert_eq!(mode_tag(Mode::Serde), 1);
    assert_eq!(tag_mode(0), Some(Mode::Bincode));
    assert_eq!(tag_mode(1), Some(Mode::Serde));
    assert_eq!(tag_mode(2), None);
    assert_eq!(tag_mode(255), None);
}

#[test]
fn mode_persists_over_later_requests() {
    let db = sled::Config::new().temporary(true).open().unwrap();
    let mut ser_db: SerSledDb = db.into();

    // A fresh store adopts the requested mode...
    assert_eq!(ser_db.resolve_mode(Mode::Serde).unwrap(), Mode::Serde);
    // ...and from then on the persisted mode wins, whatever is requested.
    assert_eq!(ser_db.resolve_mode(Mode::Bincode).unwrap(), Mode::Serde);
    assert_eq!(ser_db.resolve_mode(Mode::Serde).unwrap(), Mode::Serde);
}

#[test]
fn first_mode_wins_from_the_start() {
    let db = sled::Config::new().temporary(true).open().unwrap();
    let mut ser_db: SerSledDb = db.into();

    assert_eq!(ser_db.resolve_mode(Mode::Bincode).unwrap(), Mode::Bincode);
    assert_eq!(ser_db.resolve_mode(Mode::Serde).unwrap(), Mode::Bincode);
}
