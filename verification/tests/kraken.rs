use customaio::config::Device;
use customaio::kraken::{
    brightness_message, bucket_delete_message, bucket_memory_offset, bucket_query_message,
    bucket_setup_message, bucket_switch_message, check_image, curve_message, decode_lcd_info,
    decode_status, distinct_coolers, find_model, first_free_bucket, image_header, models,
    no_reply_message, orientation_reset_message, reply_accepted, report, select_cooler, stage_pixels,
    next_upload_step, transfer_pages, transfer_start_message, UploadStep, BucketPrep, Channel, Choice, HidCandidate, PrepAction,
    ReplyStep, ReplyWait, REPLY_ATTEMPTS,
};

fn bucket(offset: u16, size: u16, used: bool) -> [u8; 64] {
    let mut b = [0u8; 64];
    b[0] = 0x31;
    b[1] = 0x04;
    b[17] = (offset & 0xFF) as u8;
    b[18] = (offset >> 8) as u8;
    b[19] = (size & 0xFF) as u8;
    b[20] = (size >> 8) as u8;
    if used {
        b[15] = 1;
    }
    b
}

fn candidate(vid: u16, pid: u16, serial: &str, usage_page: u16) -> HidCandidate {
    HidCandidate { vendor_id: vid, product_id: pid, serial: serial.to_string(), usage_page }
}

fn any_device() -> Device {
    Device { vendor_id: 0, product_id: 0, serial: String::new() }
}

#[test]
fn models_are_found_by_their_ids() {
    let all = models();
    assert_eq!(all.len(), 5);
    for m in &all {
        let found = find_model(m.vid, m.pid).unwrap();
        assert_eq!(found.name, m.name);
    }
    assert!(find_model(0x1E71, 0x1234).is_none());
    let z = find_model(0x1E71, 0x3008).unwrap();
    assert_eq!(z.resolution, (320, 320));
    assert_eq!(z.bulk_chunk, 512);
    assert!(!z.modern);
    assert_eq!(z.pump, ([0x1, 0x0, 0x0], 20));
}

#[test]
fn reports_are_padded_to_sixty_four_bytes() {
    let r = report(&[0x74, 0x01]);
    assert_eq!(r.len(), 64);
    assert_eq!(&r[..2], &[0x74, 0x01]);
    assert!(r[2..].iter().all(|&b| b == 0));
    let long: Vec<u8> = (0..100u8).collect();
    let r = report(&long);
    assert_eq!(r, long[..64].to_vec());
}

#[test]
fn status_is_decoded_from_its_fixed_offsets() {
    let mut msg = [0u8; 64];
    msg[0] = 0x75;
    msg[1] = 0x01;
    msg[15] = 31;
    msg[16] = 4;
    msg[17] = 0x34;
    msg[18] = 0x08; // 0x0834 = 2100 rpm
    msg[19] = 60;
    msg[23] = 0xB0;
    msg[24] = 0x04; // 0x04B0 = 1200 rpm
    msg[25] = 45;
    let s = decode_status(&msg);
    assert_eq!((s.liquid_temp_whole, s.liquid_temp_tenths), (31, 4));
    assert_eq!(s.pump_rpm, 2100);
    assert_eq!(s.pump_duty, 60);
    assert_eq!(s.fan_rpm, 1200);
    assert_eq!(s.fan_duty, 45);
}

#[test]
fn curve_message_carries_channel_and_forty_duties() {
    let z = find_model(0x1E71, 0x3008).unwrap();
    let msg = curve_message(&z, Channel::Pump, &[[20, 0], [59, 0]]);
    assert_eq!(msg.len(), 44);
    assert_eq!(&msg[..4], &[0x72, 0x1, 0x0, 0x0]);
    assert!(msg[4..].iter().all(|&d| d >= 20));
    let elite = find_model(0x1E71, 0x300C).unwrap();
    let msg = curve_message(&elite, Channel::Fan, &[[20, 30]]);
    assert_eq!(&msg[..4], &[0x72, 0x2, 0x1, 0x1]);
    assert_eq!(msg[4], 30);
    assert_eq!(msg[43], 100);
}

#[test]
fn lcd_messages() {
    assert_eq!(brightness_message(50, 2), vec![0x30, 0x02, 0x01, 50, 0, 0, 1, 2]);
    assert_eq!(brightness_message(250, 0), vec![0x30, 0x02, 0x01, 100, 0, 0, 1, 0]);
    assert_eq!(orientation_reset_message(80), vec![0x30, 0x02, 0x01, 80, 0, 0, 1, 0]);
    let mut info = [0u8; 64];
    info[0x18] = 75;
    info[0x1A] = 3;
    assert_eq!(decode_lcd_info(&info), (75, 3));
}

#[test]
fn bucket_messages() {
    assert_eq!(bucket_query_message(7), vec![0x30, 0x04, 7]);
    assert_eq!(bucket_delete_message(3), vec![0x32, 0x02, 3]);
    assert_eq!(bucket_switch_message(2, 0x4), vec![0x38, 0x01, 0x4, 2]);
    assert_eq!(bucket_setup_message(1, 2, 0x1234, 401), vec![0x32, 0x01, 1, 2, 0x34, 0x12, 0x91, 0x01, 0x01]);
    assert_eq!(transfer_start_message(5), vec![0x36, 0x01, 5]);
    let mut ok = [0u8; 64];
    ok[14] = 1;
    assert!(reply_accepted(&ok));
    ok[14] = 2;
    assert!(!reply_accepted(&ok));
}

#[test]
fn reply_wait_gives_up_after_twelve_other_reports() {
    let mut wait = ReplyWait::new([0x75, 0x01]);
    let other = [0x75u8, 0x02, 0, 0];
    for _ in 0..REPLY_ATTEMPTS - 1 {
        assert!(matches!(wait.offer(&other), ReplyStep::ReadAgain));
    }
    assert!(matches!(wait.offer(&other), ReplyStep::GaveUp));
}

#[test]
fn reply_wait_accepts_the_awaited_reply() {
    let mut wait = ReplyWait::new([0x31, 0x01]);
    assert!(matches!(wait.offer(&[0x75, 0x01]), ReplyStep::ReadAgain));
    assert!(matches!(wait.offer(&[0x31, 0x01, 9]), ReplyStep::Matched));
    assert!(matches!(wait.offer(&[0x31]), ReplyStep::ReadAgain));
}

#[test]
fn no_reply_message_names_the_prefix() {
    assert_eq!(no_reply_message([0x75, 0x01]), "no [75, 01] reply from the cooler");
    assert_eq!(no_reply_message([0x3A, 0xFF]), "no [3A, FF] reply from the cooler");
}

#[test]
fn free_bucket_is_the_first_empty_one() {
    let mut buckets = vec![bucket(0, 10, true), bucket(10, 10, true), bucket(0, 0, false), bucket(0, 0, false)];
    assert_eq!(first_free_bucket(&buckets), Some(2));
    buckets[2] = bucket(20, 5, true);
    buckets[3][63] = 1;
    assert_eq!(first_free_bucket(&buckets), None);
}

#[test]
fn bucket_preparation_deletes_filled_buckets_twice() {
    // A filled bucket: two accepted deletes, then it is ready.
    let mut p = BucketPrep::new(3, true);
    assert!(matches!(p.action(), PrepAction::Delete(3)));
    assert_eq!(p.deleted(true), None);
    assert!(matches!(p.action(), PrepAction::Delete(3)));
    assert_eq!(p.deleted(true), Some(3));
}

#[test]
fn bucket_preparation_moves_on_after_a_refusal() {
    let mut p = BucketPrep::new(14, false);
    assert_eq!(p.deleted(false), None);
    assert!(matches!(p.action(), PrepAction::Delete(15)));
    assert_eq!(p.deleted(false), None);
    assert!(matches!(p.action(), PrepAction::NoFreeBucket));
}

#[test]
fn memory_offset_reuses_a_bucket_the_image_fits() {
    let buckets = vec![bucket(100, 50, true), bucket(150, 50, true)];
    assert_eq!(bucket_memory_offset(&buckets, 0, 30), Some(100));
}

#[test]
fn memory_offset_keeps_the_place_when_nothing_overlaps() {
    let buckets = vec![bucket(100, 10, true), bucket(0, 0, false), bucket(300, 10, true)];
    assert_eq!(bucket_memory_offset(&buckets, 0, 50), Some(100));
}

#[test]
fn memory_offset_appends_after_everything() {
    let buckets = vec![bucket(0, 10, true), bucket(10, 20, true)];
    assert_eq!(bucket_memory_offset(&buckets, 0, 15), Some(30));
}

#[test]
fn memory_offset_wraps_to_the_start() {
    let buckets = vec![bucket(24000, 10, true), bucket(23000, 1000, true)];
    assert_eq!(bucket_memory_offset(&buckets, 0, 400), Some(0));
}

#[test]
fn memory_offset_asks_for_a_reset_when_nothing_fits() {
    let buckets = vec![bucket(24000, 10, true), bucket(23000, 1000, true)];
    assert_eq!(bucket_memory_offset(&buckets, 0, 23500), None);
}

#[test]
fn image_header_and_pages() {
    let h = image_header(409600);
    assert_eq!(
        h,
        vec![0x12, 0xFA, 0x01, 0xE8, 0xAB, 0xCD, 0xEF, 0x98, 0x76, 0x54, 0x32, 0x10, 0x02, 0, 0, 0, 0x00, 0x40, 0x06, 0x00]
    );
    assert_eq!(transfer_pages(409600), 401);
    assert_eq!(transfer_pages(1004), 1);
    assert_eq!(transfer_pages(1005), 2);
    assert_eq!(transfer_pages(0), 1);
}

#[test]
fn image_checks() {
    let z = find_model(0x1E71, 0x3008).unwrap();
    assert_eq!(check_image(&z, 320 * 320 * 4), Ok(()));
    assert_eq!(
        check_image(&z, 10),
        Err("expected 409600 bytes of pixel data, got 10".to_string())
    );
    let elite = find_model(0x1E71, 0x300C).unwrap();
    assert_eq!(
        check_image(&elite, 640 * 640 * 4),
        Err("NZXT Kraken 2023 Elite uses a different image protocol that CustomAIO does not implement yet".to_string())
    );
}

#[test]
fn staged_pixels_have_no_alpha() {
    let mut scratch = vec![9, 9, 9];
    stage_pixels(&[1, 2, 3, 4, 5, 6, 7, 8, 10], &mut scratch);
    assert_eq!(scratch, vec![1, 2, 3, 0, 5, 6, 7, 0, 10]);
}

#[test]
fn choice_prefers_the_first_preferred_candidate() {
    let mut c = Choice::new();
    assert!(!c.consider(0, false));
    assert_eq!(c.chosen, Some(0));
    assert!(!c.consider(1, false));
    assert_eq!(c.chosen, Some(0));
    assert!(c.consider(2, true));
    assert_eq!(c.chosen, Some(2));
}

#[test]
fn cooler_selection_prefers_the_vendor_collection() {
    let cands = vec![
        candidate(0x046D, 0xC077, "", 0x0001),
        candidate(0x1E71, 0x3008, "abc", 0x0001),
        candidate(0x1E71, 0x3008, "abc", 0xFF00),
    ];
    let (model, serial) = select_cooler(&any_device(), &cands).unwrap();
    assert_eq!(model.pid, 0x3008);
    assert_eq!(serial, "abc");
}

#[test]
fn cooler_selection_falls_back_to_any_collection() {
    let cands = vec![candidate(0x1E71, 0x300E, "x1", 0x0001), candidate(0x1E71, 0x3008, "z1", 0x0001)];
    let (model, serial) = select_cooler(&any_device(), &cands).unwrap();
    assert_eq!(model.pid, 0x300E);
    assert_eq!(serial, "x1");
}

#[test]
fn cooler_selection_honours_the_configured_device() {
    let cands = vec![
        candidate(0x1E71, 0x3008, "AAA", 0xFF00),
        candidate(0x1E71, 0x3008, "bbb", 0xFF00),
    ];
    let cfg = Device { vendor_id: 0, product_id: 0, serial: "BBB".to_string() };
    let (_, serial) = select_cooler(&cfg, &cands).unwrap();
    assert_eq!(serial, "bbb");
    let cfg = Device { vendor_id: 0x1E71, product_id: 0x300C, serial: String::new() };
    assert_eq!(
        select_cooler(&cfg, &cands).err(),
        Some("no supported NZXT cooler found (close NZXT CAM and check the USB header)".to_string())
    );
    assert!(select_cooler(&any_device(), &[]).is_err());
}

#[test]
fn detected_coolers_are_listed_once() {
    let cands = vec![
        candidate(0x1E71, 0x3008, "a", 0x0001),
        candidate(0x1E71, 0x3008, "a", 0xFF00),
        candidate(0x1E71, 0x300C, "b", 0x0001),
        candidate(0x046D, 0xC077, "", 0x0001),
        candidate(0x1E71, 0x3008, "b", 0xFF00),
    ];
    assert_eq!(distinct_coolers(&cands), vec![0, 2, 4]);
    assert!(distinct_coolers(&[]).is_empty());
}

#[test]
fn upload_steps_run_in_order() {
    let order = [
        UploadStep::StartImage,
        UploadStep::QueryBuckets,
        UploadStep::PrepareBucket,
        UploadStep::PlaceImage,
        UploadStep::SetupBucket,
        UploadStep::StartTransfer,
        UploadStep::SendHeader,
        UploadStep::SendPixels,
        UploadStep::EndTransfer,
        UploadStep::ShowBucket,
        UploadStep::Done,
    ];
    let mut step = UploadStep::StartImage;
    for expected in &order[1..] {
        step = next_upload_step(step, true).unwrap();
        assert_eq!(step, *expected);
    }
}

#[test]
fn refused_setup_or_show_ends_the_upload() {
    assert_eq!(
        next_upload_step(UploadStep::SetupBucket, false),
        Err("the cooler refused the image transfer setup".to_string())
    );
    assert_eq!(
        next_upload_step(UploadStep::ShowBucket, false),
        Err("the cooler refused to display the uploaded image".to_string())
    );
    // Steps whose answer carries no verdict go on either way.
    assert_eq!(next_upload_step(UploadStep::QueryBuckets, false), Ok(UploadStep::PrepareBucket));
}
