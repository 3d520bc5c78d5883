//! Slots of the week.

use chrono::{DateTime, Datelike, FixedOffset, Local, Timelike, Utc};
use logsentry::slot::{slot_from_hour_and_weekend, Slot};

#[test]
fn slot_aus_stunde_und_wochenende_ist_im_erwarteten_bereich() {
    assert_eq!(slot_from_hour_and_weekend(0, false), Slot(0));
    assert_eq!(slot_from_hour_and_weekend(23, false), Slot(46));
    assert_eq!(slot_from_hour_and_weekend(0, true), Slot(1));
    assert_eq!(slot_from_hour_and_weekend(23, true), Slot(47));
}

#[test]
fn alle_regulaeren_slots_liegen_unter_der_any_grenze() {
    for hour in 0..24u32 {
        for weekend in [false, true] {
            let slot = slot_from_hour_and_weekend(hour, weekend);
            assert!(slot.0 < Slot::COUNT, "Slot {slot:?} außerhalb 0..48");
            assert!(slot.is_regular());
            assert_ne!(slot, Slot::any());
        }
    }
}

#[test]
fn hour_und_is_weekend_sind_umkehrung_der_konstruktion() {
    for hour in 0..24u8 {
        for weekend in [false, true] {
            let slot = slot_from_hour_and_weekend(hour as u32, weekend);
            assert_eq!(slot.hour(), Some(hour));
            assert_eq!(slot.is_weekend(), Some(weekend));
        }
    }
}

#[test]
fn any_slot_hat_keine_stunde_und_kein_wochenende() {
    assert_eq!(Slot::any().hour(), None);
    assert_eq!(Slot::any().is_weekend(), None);
    assert!(!Slot::any().is_regular());
}

#[test]
fn werktag_und_wochenende_ergeben_unterschiedliche_slots() {
    let werktag = slot_from_hour_and_weekend(14, false);
    let wochenende = slot_from_hour_and_weekend(14, true);
    assert_ne!(werktag, wochenende);
}

#[test]
fn stunden_wechsel_ergibt_unterschiedliche_slots() {
    let neun = slot_from_hour_and_weekend(9, false);
    let zehn = slot_from_hour_and_weekend(10, false);
    assert_ne!(neun, zehn);
}

#[test]
fn timestamp_ausserhalb_des_darstellbaren_bereichs_faellt_auf_any_zurueck() {
    assert_eq!(Slot::from_timestamp_us(u64::MAX), Slot::any());
}

#[test]
fn gewoehnlicher_zeitstempel_ergibt_einen_regulaeren_slot() {
    let timestamp_us = 1_768_478_400_000_000u64;
    let slot = Slot::from_timestamp_us(timestamp_us);
    assert!(slot.is_regular(), "Slot {slot:?} sollte regulär sein");
}

#[test]
fn gleicher_zeitstempel_ergibt_immer_denselben_slot() {
    let timestamp_us = 1_768_478_400_000_000u64;
    let a = Slot::from_timestamp_us(timestamp_us);
    let b = Slot::from_timestamp_us(timestamp_us);
    assert_eq!(a, b);
}

#[test]
fn local_time_decides_the_slot() {
    assert_eq!(Slot::from_local_time(None), Slot::any());
    assert_eq!(Slot::from_local_time(Some((14, 0))), slot_from_hour_and_weekend(14, false));
    assert_eq!(Slot::from_local_time(Some((14, 4))), slot_from_hour_and_weekend(14, false));
    assert_eq!(Slot::from_local_time(Some((14, 5))), slot_from_hour_and_weekend(14, true));
    assert_eq!(Slot::from_local_time(Some((14, 6))), slot_from_hour_and_weekend(14, true));
}

#[test]
fn an_hour_later_is_another_slot() {
    let hour_us = 3_600_000_000u64;
    let first = Slot::from_timestamp_us(1_768_478_400_000_000);
    let second = Slot::from_timestamp_us(1_768_478_400_000_000 + hour_us);
    assert_ne!(first, second);
}

/// The hour and the day of the week of a time in a time zone.
fn local_in<Tz: chrono::TimeZone>(timestamp_us: u64, zone: &Tz) -> (u32, u32) {
    let utc = DateTime::<Utc>::from_timestamp_micros(timestamp_us as i64).expect("a date");
    let local = utc.with_timezone(zone);
    (local.hour(), local.weekday().num_days_from_monday())
}

// 2026-03-29 00:30 UTC is 01:30 in Berlin, an hour ahead; an hour later the clocks have
// been put ahead, and it is 03:30.
#[test]
fn sommerzeitumstellung_wird_pro_ereignis_neu_berechnet() {
    let vor_umstellung_us = 1_774_742_400_000_000u64 + 30 * 60 * 1_000_000;
    let nach_umstellung_us = 1_774_742_400_000_000u64 + 90 * 60 * 1_000_000;
    let winter = FixedOffset::east_opt(3_600).expect("an offset");
    let sommer = FixedOffset::east_opt(7_200).expect("an offset");
    let vorher = Slot::from_local_time(Some(local_in(vor_umstellung_us, &winter)));
    let nachher = Slot::from_local_time(Some(local_in(nach_umstellung_us, &sommer)));
    assert_eq!(vorher.hour(), Some(1), "vor der Umstellung 01:30 CET erwartet");
    assert_eq!(nachher.hour(), Some(3), "nach der Umstellung 03:30 CEST erwartet");
    assert_eq!(vorher.is_weekend(), Some(true));
}

#[test]
fn every_time_has_the_slot_of_its_own_hour() {
    for hour in 0..24 * 8u64 {
        let timestamp_us = 1_774_742_400_000_000 + hour * 3_600_000_000 + 123_456_789;
        let (hour, weekday) = local_in(timestamp_us, &Local);
        let slot = Slot::from_timestamp_us(timestamp_us);
        assert_eq!(slot, slot_from_hour_and_weekend(hour, weekday >= 5));
        assert_eq!(Slot::from_timestamp_us(timestamp_us + 604_800_000_000 * 52).is_regular(), true);
    }
}

#[test]
fn the_clock_is_less_than_a_day_away_from_utc() {
    for seconds in [0u64, 86_399, 1_768_478_400, 8_210_266_876_799] {
        let slot = Slot::from_timestamp_us(seconds * 1_000_000);
        let fits = (-86_399i64..86_400).any(|offset| {
            let local = seconds as i64 + offset;
            let hour = (local.rem_euclid(86_400) / 3_600) as u32;
            let weekday = (local.div_euclid(86_400) + 3).rem_euclid(7);
            slot == slot_from_hour_and_weekend(hour, weekday >= 5)
        });
        assert!(fits, "{slot:?} at {seconds}");
    }
    assert_eq!(Slot::from_timestamp_us(8_210_266_876_800 * 1_000_000), Slot::any());
}
