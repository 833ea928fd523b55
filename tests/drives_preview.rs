use omnisearch::{
    check_preview, drive_type, list_drives, max_preview_bytes, mime_type, preview_data_url,
    preview_kind, DriveProbe, DriveType, PreviewError, PreviewKind,
};

fn probe(letter: &str, fs: &str, code: u32, medium: bool, openable: bool) -> DriveProbe {
    DriveProbe {
        letter: letter.to_string(),
        path: format!("{}:\\", letter),
        filesystem: fs.to_string(),
        type_code: code,
        has_medium: medium,
        volume_openable: openable,
    }
}

#[test]
fn drives_listing_rules() {
    let probes = vec![
        probe("C", "NTFS", 3, true, true),
        probe("D", "FAT32", 3, true, true),
        probe("E", "", 5, false, false),
        probe("F", "", 3, false, false),
        probe("G", "ntfs", 2, true, false),
    ];
    let drives = list_drives(&probes);
    let letters: Vec<String> = drives.iter().map(|d| d.letter.clone()).collect();
    // drives without a medium are omitted, fixed or not
    assert_eq!(letters, vec!["C".to_string(), "D".to_string(), "G".to_string()]);
    assert!(drives[0].is_ntfs && drives[0].can_open_volume);
    assert_eq!(drives[0].drive_type, DriveType::Fixed);
    assert!(!drives[1].is_ntfs && !drives[1].can_open_volume);
    assert!(drives[2].is_ntfs && !drives[2].can_open_volume);
    assert_eq!(drives[2].drive_type, DriveType::Removable);
    for d in &drives {
        assert!(d.is_ntfs || !d.can_open_volume);
    }
}

#[test]
fn drive_type_codes() {
    assert_eq!(drive_type(2), DriveType::Removable);
    assert_eq!(drive_type(3), DriveType::Fixed);
    assert_eq!(drive_type(4), DriveType::Network);
    assert_eq!(drive_type(5), DriveType::Optical);
    assert_eq!(drive_type(6), DriveType::Unknown);
}

#[test]
fn preview_kinds_and_bounds() {
    assert_eq!(preview_kind(&b"PNG".to_vec()), Some(PreviewKind::Png));
    assert_eq!(preview_kind(&b"jpeg".to_vec()), Some(PreviewKind::Jpeg));
    assert_eq!(preview_kind(&b"mkv".to_vec()), Some(PreviewKind::Mkv));
    assert_eq!(preview_kind(&b"txt".to_vec()), None);
    assert_eq!(mime_type(PreviewKind::Mov), "video/quicktime");
    assert_eq!(max_preview_bytes(PreviewKind::Pdf), 8 * 1024 * 1024);
    assert_eq!(max_preview_bytes(PreviewKind::Mp4), 20 * 1024 * 1024);
    assert_eq!(max_preview_bytes(PreviewKind::Gif), 12 * 1024 * 1024);
    assert_eq!(check_preview(&b"exe".to_vec(), 1), Err(PreviewError::Unsupported));
    assert_eq!(check_preview(&b"pdf".to_vec(), 8 * 1024 * 1024 + 1), Err(PreviewError::TooLarge(8 * 1024 * 1024 + 1)));
    assert_eq!(check_preview(&b"pdf".to_vec(), 8 * 1024 * 1024), Ok(PreviewKind::Pdf));
}

#[test]
fn preview_url_encodes_bytes() {
    assert_eq!(preview_data_url(PreviewKind::Png, &vec![1, 2, 3]), "data:image/png;base64,AQID");
    assert_eq!(preview_data_url(PreviewKind::Pdf, &b"hi".to_vec()), "data:application/pdf;base64,aGk=");
    assert_eq!(preview_data_url(PreviewKind::Gif, &Vec::new()), "data:image/gif;base64,");
}
