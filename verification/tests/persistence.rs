use lkjscript_platform::persistence::{check_head_frame, frame_head, head_checksum, head_magic_bytes, is_temporary_file_name, MAXIMUM_HEAD_BYTES};

#[test]
fn temporary_file_names_carry_a_process_and_a_serial() {
    for name in [".tmp-12-34", ".tmp-+12-34", ".tmp-0-0", ".tmp-4294967295-18446744073709551615", ".tmp-007-+9"] {
        assert!(is_temporary_file_name(name), "{name}");
    }
    for name in [
        "",
        ".tmp-",
        ".tmp-1",
        ".tmp-12-",
        ".tmp--12-34",
        ".tmp-12-34-5",
        ".tmp-12--34",
        ".tmp-4294967296-1",
        ".tmp-1-18446744073709551616",
        ".tmp-a-1",
        ".tmp-+-1",
        ".tmp-1-+",
        "tmp-1-2",
        ".TMP-1-2",
        ".tmp-1 -2",
        ".tmp-١-2",
    ] {
        assert!(!is_temporary_file_name(name), "{name}");
    }
}


#[test]
fn framed_head_checks_out_and_gives_back_its_fields() {
    let mut body = head_magic_bytes().to_vec();
    body.extend_from_slice(&[1, 2, 3, 4]);
    let framed = frame_head(&body).expect("small head");
    assert_eq!(framed.len(), body.len() + 32);
    assert_eq!(&framed[body.len()..], &head_checksum(&body)[..]);
    assert_eq!(check_head_frame(&framed).expect("sound frame"), vec![1, 2, 3, 4]);
}

#[test]
fn corrupt_head_frames_are_refused() {
    let mut body = head_magic_bytes().to_vec();
    body.push(9);
    let framed = frame_head(&body).expect("small head");
    let mut flipped = framed.clone();
    let last = flipped.len() - 1;
    flipped[last] ^= 1;
    assert_eq!(check_head_frame(&flipped).unwrap_err().code, "workspace_head_corrupt");
    assert_eq!(check_head_frame(&framed[..31]).unwrap_err().code, "workspace_head_corrupt");
    let foreign = frame_head(&[0, 1, 2, 3, 4, 5, 6, 7, 8]).expect("small head");
    assert_eq!(check_head_frame(&foreign).unwrap_err().code, "workspace_head_corrupt");
    let large = vec![0u8; MAXIMUM_HEAD_BYTES];
    assert_eq!(frame_head(&large).unwrap_err().code, "workspace_head_policy");
}
