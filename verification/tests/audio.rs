//! Audio buffers and devices.

use tang::audio::{
    copy_front, find_device, interleave, is_harmless, is_realtime, pad_input, quantum, refill,
};

#[test]
fn channels_are_interleaved() {
    let mut data = vec![0; 6];
    interleave(&mut data, &vec![vec![1, 2, 3], vec![4, 5, 6]], 3);
    assert_eq!(data, vec![1, 4, 2, 5, 3, 6]);
}

#[test]
fn devices_are_found_by_part_of_their_name() {
    let names = vec![None, Some("HDA Intel".to_string()), Some("USB Audio".to_string())];
    assert_eq!(find_device(&names, "USB"), Some(2));
    assert_eq!(find_device(&names, "Intel"), Some(1));
    assert_eq!(find_device(&names, ""), Some(1));
    assert_eq!(find_device(&names, "usb"), None);
}

#[test]
fn scheduling_flags_do_not_matter() {
    assert!(is_realtime(1, 1, 2));
    assert!(is_realtime(0x4000_0002, 1, 2));
    assert!(!is_realtime(0, 1, 2));
}

#[test]
fn a_changed_buffer_size_is_harmless() {
    assert!(is_harmless("the buffer size changed to 64"));
    assert!(!is_harmless("device lost"));
    assert_eq!(quantum(512, 48000), "512/48000");
}

#[test]
fn short_inputs_are_padded() {
    let mut buf = vec![9];
    pad_input(&mut buf, Some(&[1, 2]), 4, 0);
    assert_eq!(buf, vec![1, 2, 0, 0]);
    pad_input(&mut buf, Some(&[1, 2, 3, 4, 5]), 3, 0);
    assert_eq!(buf, vec![1, 2, 3]);
    pad_input(&mut buf, None, 2, 0);
    assert_eq!(buf, vec![0, 0]);
}

#[test]
fn refilled_buffers_keep_old_samples_behind_a_short_input() {
    let mut buf = vec![7, 8, 9];
    refill(&mut buf, Some(&[1]), 4, 0);
    assert_eq!(buf, vec![1, 8, 9, 0]);
    refill(&mut buf, Some(&[5, 6, 7, 8]), 2, 0);
    assert_eq!(buf, vec![5, 6]);
    refill(&mut buf, None, 3, 0);
    assert_eq!(buf, vec![0, 0, 0]);
}

#[test]
fn copies_go_as_far_as_both_reach() {
    let mut to = [9, 9, 9];
    copy_front(&mut to, &[1, 2]);
    assert_eq!(to, [1, 2, 9]);
    copy_front(&mut to, &[3, 4, 5, 6]);
    assert_eq!(to, [3, 4, 5]);
}
