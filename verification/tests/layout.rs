use uv5r::layout::{
    dump_address, includes_aux, upload_address, upload_count, upload_payload, validate_image, AUX_BASE,
    FULL_SIZE, FULL_WRITES, IDENT_PREFIX, MAIN_END, MAIN_READS, MAIN_SIZE, MAIN_WRITES, READS,
    READ_SIZE, WRITE_SIZE,
};
use uv5r::wire::{
    check_read_header, encode_magic, encode_read_request, encode_write_frame,
    ImageValidationError, ProtocolViolation,
};

fn image_of(len: usize) -> Vec<u8> {
    (0..len).map(|i| (i % 251) as u8).collect()
}

#[test]
fn layout_constants_agree() {
    assert_eq!(MAIN_READS * READ_SIZE as usize, MAIN_SIZE);
    assert_eq!(MAIN_WRITES * WRITE_SIZE, MAIN_SIZE);
    assert_eq!(IDENT_PREFIX + MAIN_SIZE, MAIN_END);
    assert_eq!(MAIN_END + (READS - MAIN_READS) * READ_SIZE as usize, FULL_SIZE);
    assert_eq!(MAIN_END + (FULL_WRITES - MAIN_WRITES) * WRITE_SIZE, FULL_SIZE);
    assert_eq!(FULL_SIZE, 0x1948);
}

#[test]
fn dump_addresses_walk_main_then_aux() {
    assert_eq!(dump_address(0), 0x0000);
    assert_eq!(dump_address(1), 0x0040);
    assert_eq!(dump_address(0x5F), 0x17C0);
    assert_eq!(dump_address(0x60), 0x1EC0);
    assert_eq!(dump_address(0x64), 0x1FC0);
    for k in 0..MAIN_READS {
        assert_eq!(dump_address(k) as usize, k * 0x40);
    }
    for k in MAIN_READS..READS {
        assert_eq!(dump_address(k) as usize, 0x1EC0 + (k - MAIN_READS) * 0x40);
    }
}

#[test]
fn upload_addresses_walk_main_then_aux() {
    assert_eq!(upload_address(0), 0x0000);
    assert_eq!(upload_address(1), 0x0010);
    assert_eq!(upload_address(0x17F), 0x17F0);
    assert_eq!(upload_address(0x180), 0x1EC0);
    assert_eq!(upload_address(0x193), 0x1FF0);
}

#[test]
fn aux_file_offsets_are_remapped() {
    let image = image_of(FULL_SIZE);
    for k in 0..0x140usize {
        let offset = MAIN_END + k;
        let index = (offset - IDENT_PREFIX) / WRITE_SIZE;
        let within = (offset - IDENT_PREFIX) % WRITE_SIZE;
        assert_eq!(upload_address(index) as usize + within, AUX_BASE as usize + k);
        assert_eq!(upload_payload(&image, index)[within], image[offset]);
    }
}

#[test]
fn main_file_offsets_map_to_themselves_less_the_ident() {
    let image = image_of(FULL_SIZE);
    for offset in IDENT_PREFIX..MAIN_END {
        let index = (offset - IDENT_PREFIX) / WRITE_SIZE;
        let within = (offset - IDENT_PREFIX) % WRITE_SIZE;
        assert_eq!(upload_address(index) as usize + within, offset - IDENT_PREFIX);
        assert_eq!(upload_payload(&image, index)[within], image[offset]);
    }
}

#[test]
fn upload_count_depends_on_the_aux_region_being_whole() {
    assert_eq!(upload_count(0x1800), 0x180);
    assert_eq!(upload_count(0x1808), 0x180);
    assert_eq!(upload_count(0x1947), 0x180);
    assert_eq!(upload_count(0x1948), 0x194);
    assert_eq!(upload_count(0x2000), 0x194);
}

#[test]
fn upload_payloads_are_sixteen_byte_slices() {
    let image = image_of(FULL_SIZE);
    assert_eq!(upload_payload(&image, 0), &image[0x0008..0x0018]);
    assert_eq!(upload_payload(&image, 0x17F), &image[0x17F8..0x1808]);
    assert_eq!(upload_payload(&image, 0x180), &image[0x1808..0x1818]);
    assert_eq!(upload_payload(&image, 0x193), &image[0x1938..0x1948]);
}

#[test]
fn last_main_payload_is_short_when_the_image_ends_inside_it() {
    let image = image_of(0x1800);
    assert_eq!(upload_payload(&image, 0x17E), &image[0x17E8..0x17F8]);
    assert_eq!(upload_payload(&image, 0x17F), &image[0x17F8..0x1800]);
    let image = image_of(0x1807);
    assert_eq!(upload_payload(&image, 0x17F).len(), 15);
}

#[test]
fn bytes_past_the_aux_region_are_never_sent() {
    let image = image_of(0x2000);
    assert_eq!(upload_payload(&image, 0x193), &image[0x1938..0x1948]);
    assert_eq!(upload_count(image.len()), 0x194);
}

#[test]
fn validation_accepts_matching_ident_and_sufficient_length() {
    let image = image_of(0x1800);
    assert_eq!(validate_image(&image, &image[..8]), Ok(()));
    let image = image_of(FULL_SIZE);
    assert_eq!(validate_image(&image, &image[..8]), Ok(()));
}

#[test]
fn validation_rejects_a_different_ident() {
    let image = image_of(FULL_SIZE);
    for flipped in 0..8 {
        let mut ident = image[..8].to_vec();
        ident[flipped] ^= 0x80;
        assert_eq!(
            validate_image(&image, &ident),
            Err(ImageValidationError::IdentMismatch)
        );
    }
}

#[test]
fn validation_rejects_an_ident_that_is_not_eight_bytes() {
    let image = image_of(FULL_SIZE);
    assert_eq!(
        validate_image(&image, &image[..9]),
        Err(ImageValidationError::IdentMismatch)
    );
    assert_eq!(
        validate_image(&image, &image[..7]),
        Err(ImageValidationError::IdentMismatch)
    );
}

#[test]
fn validation_rejects_a_short_image() {
    let image = image_of(0x17FF);
    assert_eq!(
        validate_image(&image, &image[..8]),
        Err(ImageValidationError::ImageTooSmall)
    );
    let image = image_of(8);
    assert_eq!(
        validate_image(&image, &image[..8]),
        Err(ImageValidationError::ImageTooSmall)
    );
}

#[test]
fn validation_compares_the_ident_before_the_length() {
    let image = image_of(0x100);
    assert_eq!(
        validate_image(&image, &[0xFF; 8]),
        Err(ImageValidationError::IdentMismatch)
    );
    assert_eq!(
        validate_image(&[1, 2, 3], &[1, 2, 3, 4, 5, 6, 7, 8]),
        Err(ImageValidationError::IdentMismatch)
    );
    assert_eq!(
        validate_image(&[], &[]),
        Err(ImageValidationError::IdentMismatch)
    );
}

#[test]
fn magic_is_the_seven_byte_sequence() {
    assert_eq!(encode_magic(), vec![0x50, 0xBB, 0xFF, 0x20, 0x12, 0x07, 0x25]);
}

#[test]
fn read_request_is_tag_address_size() {
    assert_eq!(encode_read_request(0x0000, 0x40), vec![0x53, 0x00, 0x00, 0x40]);
    assert_eq!(encode_read_request(0x1FC0, 0x40), vec![0x53, 0x1F, 0xC0, 0x40]);
    assert_eq!(encode_read_request(0xFFFF, 0x00), vec![0x53, 0xFF, 0xFF, 0x00]);
}

#[test]
fn write_frame_is_header_then_payload() {
    assert_eq!(
        encode_write_frame(0x1EC0, &[0xDE, 0xAD]),
        vec![0x58, 0x1E, 0xC0, 0x02, 0xDE, 0xAD]
    );
    assert_eq!(encode_write_frame(0x0001, &[]), vec![0x58, 0x00, 0x01, 0x00]);
}

#[test]
fn header_check_names_each_mismatch() {
    assert_eq!(check_read_header(&[0x58, 0x1E, 0xC0, 0x40], 0x1EC0, 0x40), Ok(()));
    assert_eq!(
        check_read_header(&[0x53, 0x1E, 0xC0, 0x40], 0x1EC0, 0x40),
        Err(ProtocolViolation::InvalidResponseTag)
    );
    assert_eq!(
        check_read_header(&[0x58, 0x1F, 0xC0, 0x40], 0x1EC0, 0x40),
        Err(ProtocolViolation::AddressMismatch)
    );
    assert_eq!(
        check_read_header(&[0x58, 0x1E, 0xC1, 0x40], 0x1EC0, 0x40),
        Err(ProtocolViolation::AddressMismatch)
    );
    assert_eq!(
        check_read_header(&[0x58, 0x1E, 0xC0, 0x41], 0x1EC0, 0x40),
        Err(ProtocolViolation::SizeMismatch)
    );
}

#[test]
fn aux_region_is_included_from_its_full_length_on() {
    assert!(!includes_aux(0));
    assert!(!includes_aux(0x1808));
    assert!(!includes_aux(0x1947));
    assert!(includes_aux(0x1948));
    assert!(includes_aux(0x1949));
}
