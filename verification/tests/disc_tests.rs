use discid::DiscId;

fn expect_err(r: Result<DiscId, String>) -> String {
    match r {
        Err(e) => e,
        Ok(_) => panic!("expected an error"),
    }
}

#[test]
fn test_put() {
    let first = 1;
    let offsets = [
        206535, 150, 18901, 39738, 59557, 79152, 100126, 124833, 147278, 166336, 182560,
    ];
    let disc = DiscId::put(first, &offsets).expect("DiscId::put failed");
    let last_track = disc.last_track_num();
    assert_eq!("Wn8eRBtfLDfM0qjYPdxrz.Zjs_U-", disc.id());
    assert_eq!("830abf0a", disc.freedb_id());
    assert_eq!(1, disc.first_track_num());
    assert_eq!(10, last_track);
    assert_eq!(206535, disc.sectors());
    assert_eq!(
        "1 10 206535 150 18901 39738 59557 79152 100126 124833 147278 166336 182560",
        disc.toc_string()
    );
    assert_eq!(
        "http://musicbrainz.org/cdtoc/attach?id=Wn8eRBtfLDfM0qjYPdxrz.Zjs_U-&tracks=10&toc=1+10+206535+150+18901+39738+59557+79152+100126+124833+147278+166336+182560",
        disc.submission_url());
    for i in first..last_track + 1 {
        let offset = offsets[i as usize];
        let next = if i < last_track { i + 1 } else { 0 };
        let length = offsets[next as usize] - offset;
        assert_eq!(
            offset,
            disc.track_offset(i),
            "track {} expected offset {}",
            i,
            offset
        );
        assert_eq!(
            length,
            disc.track_length(i),
            "track {} expected length {}",
            i,
            length
        );
    }
}

#[test]
fn test_debug() {
    let first = 1;
    let offsets = [2000, 150, 1000];
    let disc = DiscId::put(first, &offsets).expect("DiscId::put failed");
    assert_eq!("DiscId 1 2 2000 150 1000", disc.debug_string());
}

#[test]
fn test_put_higher_first_track() {
    let disc = DiscId::put(3, &[5000, 150, 1000, 2000]).expect("DiscId::put failed");
    assert_eq!(3, disc.first_track_num());
    assert_eq!(5, disc.last_track_num());
    assert_eq!(5000, disc.sectors());
    assert_eq!(150, disc.track_offset(3));
    assert_eq!(2000, disc.track_offset(5));
    assert_eq!(850, disc.track_length(3));
    assert_eq!(3000, disc.track_length(5));
}

#[test]
fn test_put_single_track_at_upper_limit() {
    let disc = DiscId::put(99, &[5000, 150]).expect("DiscId::put failed");
    assert_eq!(99, disc.first_track_num());
    assert_eq!(99, disc.last_track_num());
    assert_eq!(5000, disc.sectors());
    assert_eq!(150, disc.track_offset(99));
    assert_eq!(4850, disc.track_length(99));
}

#[test]
fn test_put_full_track_range() {
    let mut offsets = vec![1_000_000];
    for t in 0..99 {
        offsets.push(150 + t * 10_000);
    }
    let disc = DiscId::put(1, &offsets).expect("DiscId::put failed");
    assert_eq!(1, disc.first_track_num());
    assert_eq!(99, disc.last_track_num());
    assert_eq!(10_000, disc.track_length(1));
    assert_eq!(1_000_000 - (150 + 98 * 10_000), disc.track_length(99));
}

#[test]
fn test_put_illegal_track_limits() {
    let err = expect_err(DiscId::put(0, &[2000, 150]));
    assert_eq!("Illegal track limits", err);
    let err = expect_err(DiscId::put(100, &[2000, 150]));
    assert_eq!("Illegal track limits", err);
    let err = expect_err(DiscId::put(1, &[2000]));
    assert_eq!("Illegal track limits", err);
    let err = expect_err(DiscId::put(99, &[2000, 150, 1000]));
    assert_eq!("Illegal track limits", err);
}

#[test]
fn test_put_invalid_offsets() {
    let err = expect_err(DiscId::put(1, &[2000, -150, 1000]));
    assert_eq!("Invalid track offsets", err);
    let err = expect_err(DiscId::put(1, &[2000, 150, 2001]));
    assert_eq!("Invalid track offsets", err);
    let err = expect_err(DiscId::put(1, &[-2000, 150, 1000]));
    assert_eq!("Invalid track offsets", err);
}

#[test]
fn test_put_leaves_device_data_empty() {
    let disc = DiscId::put(1, &[2000, 150, 1000]).expect("DiscId::put failed");
    assert_eq!("", disc.mcn());
    assert_eq!("", disc.track_isrc(1));
    assert_eq!("", disc.track_isrc(2));
}

#[test]
fn test_from_parts_carries_device_data() {
    let disc = DiscId::from_parts(
        1,
        vec![2000, 150, 1000],
        String::from("794356700051"),
        vec![String::from("DEC770800101"), String::from("DEC770800102")],
    )
    .expect("DiscId::from_parts failed");
    assert_eq!("794356700051", disc.mcn());
    assert_eq!("DEC770800101", disc.track_isrc(1));
    assert_eq!("DEC770800102", disc.track_isrc(2));
    assert_eq!("1 2 2000 150 1000", disc.toc_string());
}

#[test]
fn test_from_parts_wrong_isrc_count() {
    let err = expect_err(DiscId::from_parts(
        1,
        vec![2000, 150, 1000],
        String::new(),
        vec![String::from("DEC770800101")],
    ));
    assert_eq!("Wrong number of ISRC entries", err);
}
