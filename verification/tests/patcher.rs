use eu4_patcher::find_location;
use eu4_patcher::instruction_eq;
use eu4_patcher::patch::PatchPart;
use eu4_patcher::Patch;
use eu4_patcher::PatchError;
use eu4_patcher::PatchTyp;

const MODDED_TARGET: [u8; 15] = [
    0x01, 0x48, 0x8D, 0x97, 0x58, 0x02, 0x00, 0x00, 0x48, 0x83, 0x7A, 0x18, 0x10, 0x72, 0x03,
];

#[test]
fn wildcard_matches_any_byte() {
    assert!(instruction_eq(&[0xAA, 0x10], &[0x2A, 0x10]));
    assert!(instruction_eq(&[0x00, 0x10], &[0x2A, 0x10]));
    assert!(instruction_eq(&[0x2A, 0x10], &[0x2A, 0x10]));
    assert!(!instruction_eq(&[0xAA, 0x11], &[0x2A, 0x10]));
    assert!(!instruction_eq(&[0xAA], &[0x2A, 0x10]));
    assert!(instruction_eq(&[], &[]));
}

#[test]
fn resolves_and_applies_concrete_scenario() {
    let image = vec![0x01u8, 0x02, 0x0F, 0x94, 0xC3, 0x03];
    let anchor = [0x01u8, 0x02];
    let before = [0x0Fu8, 0x94, 0xC3];
    let after = [0x40u8, 0xFE, 0xC3];

    let loc = find_location(&image, &anchor, &before, &after);
    assert_eq!(loc, Ok(2));

    let patch = Patch {
        typ: PatchTyp::ModdedIronman,
        parts: vec![PatchPart {
            target: anchor.to_vec(),
            location: 2,
            pre_patch: before.to_vec(),
            post_patch: after.to_vec(),
        }],
    };
    let mut img = image.clone();
    assert_eq!(patch.apply(&mut img), Ok(()));
    assert_eq!(img, vec![0x01, 0x02, 0x40, 0xFE, 0xC3, 0x03]);
}

#[test]
fn second_attempt_reports_already_applied() {
    let image = vec![0x01u8, 0x02, 0x40, 0xFE, 0xC3, 0x03];
    let r = find_location(&image, &[0x01, 0x02], &[0x0F, 0x94, 0xC3], &[0x40, 0xFE, 0xC3]);
    assert_eq!(r, Err(PatchError::AlreadyApplied));
}

#[test]
fn reapplying_reports_already_applied_and_keeps_bytes() {
    let mut image = Vec::new();
    image.extend_from_slice(&MODDED_TARGET);
    image.extend_from_slice(&[0x0F, 0x94, 0xC3]);
    image.extend_from_slice(&[0x00; 10]);

    let patch = PatchTyp::ModdedIronman.find_patch(&image).unwrap();
    assert_eq!(patch.typ(), PatchTyp::ModdedIronman);
    assert_eq!(patch.apply(&mut image), Ok(()));
    assert_eq!(&image[15..18], &[0x40, 0xFE, 0xC3]);

    let snapshot = image.clone();
    let second = PatchTyp::ModdedIronman.find_patch(&image);
    assert!(matches!(second, Err(PatchError::AlreadyApplied)));
    assert_eq!(image, snapshot);
}

#[test]
fn failed_verify_leaves_image_unchanged() {
    let mut image = vec![0x01u8, 0x02, 0x0F, 0x94, 0xC3, 0x03];
    let snapshot = image.clone();
    let patch = Patch {
        typ: PatchTyp::ModdedIronman,
        parts: vec![
            PatchPart {
                target: vec![0x01, 0x02],
                location: 2,
                pre_patch: vec![0x0F, 0x94, 0xC3],
                post_patch: vec![0x40, 0xFE, 0xC3],
            },
            PatchPart {
                target: vec![0x01, 0x02],
                location: 0,
                pre_patch: vec![0xFF, 0xFF],
                post_patch: vec![0x00, 0x00],
            },
        ],
    };
    assert_eq!(patch.apply(&mut image), Err(PatchError::PatchFileDoesNotMatchTarget));
    assert_eq!(image, snapshot);
}

#[test]
fn out_of_bounds_edit_leaves_image_unchanged() {
    let mut image = vec![0x01u8, 0x02, 0x0F];
    let snapshot = image.clone();
    let patch = Patch {
        typ: PatchTyp::ModdedIronman,
        parts: vec![PatchPart {
            target: vec![0x01, 0x02],
            location: 2,
            pre_patch: vec![0x0F, 0x94, 0xC3],
            post_patch: vec![0x40, 0xFE, 0xC3],
        }],
    };
    assert_eq!(patch.apply(&mut image), Err(PatchError::PatchFileDoesNotMatchTarget));
    assert_eq!(image, snapshot);
}

#[test]
fn ambiguous_anchor_is_rejected() {
    let image = vec![0x01u8, 0x02, 0x00, 0x01, 0x02, 0x00];
    let r = find_location(&image, &[0x01, 0x02], &[0x00], &[0x11]);
    assert_eq!(r, Err(PatchError::MultiplePossibleLocations));
}

#[test]
fn missing_anchor_is_unavailable() {
    let image = vec![0x00u8, 0x00, 0x00, 0x00];
    let r = find_location(&image, &[0x01, 0x02], &[0x03], &[0x04]);
    assert_eq!(r, Err(PatchError::Unavailable));
}

#[test]
fn target_outside_window_is_unavailable() {
    let mut image = vec![0x01u8, 0x02];
    image.extend_from_slice(&[0x00; 150]);
    image.extend_from_slice(&[0x0F, 0x94, 0xC3]);
    let r = find_location(&image, &[0x01, 0x02], &[0x0F, 0x94, 0xC3], &[0x40, 0xFE, 0xC3]);
    assert_eq!(r, Err(PatchError::Unavailable));
}

#[test]
fn target_inside_window_resolves() {
    let mut image = vec![0x01u8, 0x02];
    image.extend_from_slice(&[0x00; 48]);
    image.extend_from_slice(&[0x0F, 0x94, 0xC3]);
    image.extend_from_slice(&[0x00; 60]);
    let r = find_location(&image, &[0x01, 0x02], &[0x0F, 0x94, 0xC3], &[0x40, 0xFE, 0xC3]);
    assert_eq!(r, Ok(50));
}

#[test]
fn first_before_match_wins() {
    let mut image = vec![0x01u8, 0x02, 0x00];
    image.extend_from_slice(&[0x0F, 0x94, 0xC3]);
    image.extend_from_slice(&[0x0F, 0x94, 0xC3]);
    let r = find_location(&image, &[0x01, 0x02], &[0x0F, 0x94, 0xC3], &[0x40, 0xFE, 0xC3]);
    assert_eq!(r, Ok(3));
}

#[test]
fn after_checked_before_wildcard_match() {
    // At offset 2 the literal `after` bytes stand, and the wildcard-bearing
    // `before` pattern matches there too: the `after` check takes priority.
    let image = vec![0x01u8, 0x02, 0x99, 0x55];
    let r = find_location(&image, &[0x01, 0x02], &[0x2A, 0x55], &[0x99, 0x55]);
    assert_eq!(r, Err(PatchError::AlreadyApplied));
}

#[test]
fn enable_ironman_loading_resolves_both_edits() {
    let target_a: [u8; 20] = [
        0xD2, 0x48, 0x8B, 0x01, 0x4C, 0x8B, 0x80, 0x80, 0x00, 0x00, 0x00, 0x4C, 0x3B, 0xC7, 0x75,
        0x14, 0x84, 0xD2, 0x74, 0x08,
    ];
    let target_b: [u8; 16] = [
        0xD7, 0x49, 0x8B, 0xCC, 0x41, 0xFF, 0x50, 0x28, 0x84, 0xC0, 0x0F, 0x84, 0x9C, 0x00, 0x00,
        0x00,
    ];
    let mut image = Vec::new();
    image.extend_from_slice(&target_a);
    image.extend_from_slice(&[0x00; 5]);
    image.extend_from_slice(&target_b);
    image.extend_from_slice(&[0x00; 5]);

    let patch = PatchTyp::EnableIronmanLoading.find_patch(&image).unwrap();
    assert_eq!(patch.apply(&mut image), Ok(()));
    // First edit: the two bytes at the tail of the first anchor are NOPed.
    assert_eq!(&image[18..20], &[0x90, 0x90]);
    // Second edit: the six-byte jump inside the second anchor is NOPed.
    assert_eq!(&image[35..41], &[0x90; 6]);
    // The bytes around the edits are untouched.
    assert_eq!(&image[0..18], &target_a[0..18]);
    assert_eq!(&image[20..35], {
        let mut expect = vec![0x00u8; 5];
        expect.extend_from_slice(&target_b[0..10]);
        expect
    }.as_slice());

    // Both written ranges lie inside their own anchors, so after the edit
    // the anchors no longer match anywhere: a second resolution reports the
    // capability as unavailable rather than already applied.
    let second = PatchTyp::EnableIronmanLoading.find_patch(&image);
    assert!(matches!(second, Err(PatchError::Unavailable)));
}

#[test]
fn midgame_wildcards_resolve_against_varying_bytes() {
    let mut image = vec![
        0x48u8, 0x8B, 0x05, 0xDE, 0xAD, 0xBE, 0xEF, 0x80, 0xB8, 0x11, 0x24, 0x00, 0x00, 0x00,
        0x74, 0x0C,
    ];
    image.extend_from_slice(&[0x00; 8]);

    let patch = PatchTyp::MidgameIronman.find_patch(&image).unwrap();
    assert_eq!(patch.apply(&mut image), Ok(()));
    assert_eq!(&image[7..15], &[0xC6, 0x80, 0xF0, 0x24, 0x00, 0x00, 0x00, 0xEB]);
    // The wildcard positions of the anchor were left as they were.
    assert_eq!(&image[0..7], &[0x48, 0x8B, 0x05, 0xDE, 0xAD, 0xBE, 0xEF]);
}

#[test]
fn modded_ironman_unavailable_on_foreign_image() {
    let image = vec![0x00u8; 64];
    let r = PatchTyp::ModdedIronman.find_patch(&image);
    assert!(matches!(r, Err(PatchError::Unavailable)));
}
