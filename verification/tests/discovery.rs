use rom_atlas::discovery::{
    bytes_left, clamped_slice, discover, infer_region, infer_size, slice_of, starts_region,
    GROWTH_STEP, SIZE_CAP,
};
use rom_atlas::{RegionOrigin, RomPointer, RomRegion, RomRegionKind};

fn junk(len: usize) -> Vec<u8> {
    [0x01u8, 0xDC, 0x85, 0x08].iter().copied().cycle().take(len).collect()
}

fn region_at(offset: usize) -> RomRegion {
    RomRegion {
        offset,
        size: 1,
        name: "known",
        kind: RomRegionKind::Reserved,
        required: false,
        value_map: None,
        origin: RegionOrigin::Spec,
    }
}

fn pointer_to(from: usize, to: usize) -> RomPointer {
    RomPointer { from, to, raw: 0x0800_0000 + to as u32 }
}

#[test]
fn the_window_grows_to_the_cap_while_the_kind_stays() {
    assert_eq!(GROWTH_STEP, 32);
    assert_eq!(SIZE_CAP, 1024);
    let image = vec![0x41u8; 4096];
    assert_eq!(infer_size(&image, 0, None), 1024);
    assert_eq!(infer_size(&image, 1000, None), 1024);
    assert_eq!(infer_size(&image, 4096 - 1024, None), 1024);
}

#[test]
fn the_window_stops_growing_where_the_kind_changes() {
    let mut image = vec![0x41u8; 64];
    image.extend_from_slice(&junk(448));
    assert_eq!(infer_size(&image, 0, None), 64);
    assert_eq!(infer_size(&image, 32, None), 32);
    let mut image = vec![0x41u8; 32];
    image.extend_from_slice(&junk(480));
    assert_eq!(infer_size(&image, 0, None), 32);
}

#[test]
fn a_kind_other_than_text_can_be_the_stable_one() {
    let mut image = junk(96);
    image.extend_from_slice(&vec![0x41u8; 416]);
    assert_eq!(infer_size(&image, 0, None), 288);
    let mut image = junk(96);
    image.extend_from_slice(&[0x02, 0xDC, 0x85, 0x07].repeat(104));
    assert_eq!(infer_size(&image, 0, None), 512);
    assert_eq!(infer_size(&image, 64, None), 448);
    assert_eq!(infer_size(&image, 96, None), 416);
    image[96 + 41] = 0x10;
    assert_eq!(infer_size(&image, 96, None), 32);
    assert_eq!(infer_size(&image, 128, None), 384);
}

#[test]
fn the_window_does_not_grow_past_the_image() {
    let image = vec![0x41u8; 100];
    assert_eq!(infer_size(&image, 0, None), 96);
    assert_eq!(infer_size(&image, 4, None), 96);
    assert_eq!(infer_size(&image, 5, None), 64);
    assert_eq!(infer_size(&image, 36, None), 64);
    assert_eq!(infer_size(&image, 37, None), 32);
    assert_eq!(infer_size(&image, 68, None), 32);
}

#[test]
fn less_than_one_step_of_image_still_gives_one_step() {
    let image = vec![0x41u8; 100];
    assert_eq!(infer_size(&image, 69, None), 32);
    assert_eq!(infer_size(&image, 90, None), 32);
    assert_eq!(infer_size(&image, 99, None), 32);
    assert_eq!(infer_size(&image, 100, None), 32);
    assert_eq!(infer_size(&[], 0, None), 32);
}

#[test]
fn a_start_past_the_image_gives_one_step_of_unknown() {
    let image = vec![0x41u8; 100];
    assert_eq!(infer_size(&image, 101, None), 32);
    assert_eq!(infer_size(&image, usize::MAX, None), 32);
    let region = infer_region(&image, 500, None);
    assert_eq!((region.offset, region.size, region.kind), (500, 32, RomRegionKind::Unknown));
    let region = infer_region(&image, 100, None);
    assert_eq!((region.offset, region.size, region.kind), (100, 32, RomRegionKind::Unknown));
    let region = infer_region(&image, 97, None);
    assert_eq!((region.offset, region.size, region.kind), (97, 32, RomRegionKind::Unknown));
    let region = infer_region(&image, 96, None);
    assert_eq!((region.offset, region.size, region.kind), (96, 32, RomRegionKind::Text));
    let mut found = Vec::new();
    discover(&image, None, &[], &[pointer_to(0, 4000), pointer_to(4, 4000)], &mut found);
    assert_eq!(found.len(), 1);
    assert_eq!((found[0].offset, found[0].size), (4000, 32));
}

#[test]
fn windows_are_cut_off_at_the_end_of_the_image() {
    let image = [1u8, 2, 3, 4, 5];
    assert_eq!(clamped_slice(&image, 1, 3), &[2, 3, 4]);
    assert_eq!(clamped_slice(&image, 3, 32), &[4, 5]);
    assert_eq!(clamped_slice(&image, 5, 32), &[] as &[u8]);
    assert_eq!(clamped_slice(&image, 6, 32), &[] as &[u8]);
    assert_eq!(clamped_slice(&image, 0, 0), &[] as &[u8]);
    assert_eq!(clamped_slice(&image, 0, usize::MAX), &image);
    assert_eq!(bytes_left(&image, 0), 5);
    assert_eq!(bytes_left(&image, 5), 0);
    assert_eq!(bytes_left(&image, 6), 0);
}

#[test]
fn inferred_sizes_are_whole_steps_within_the_cap_and_the_image() {
    let mut image = Vec::new();
    let mut seed: u32 = 7;
    for _ in 0..3000 {
        seed = seed.wrapping_mul(1_103_515_245).wrapping_add(12_345);
        image.push(if seed & 0x0300_0000 == 0 { (seed >> 16) as u8 } else { 0x41 });
    }
    for start in (0..image.len()).step_by(37) {
        let size = infer_size(&image, start, None);
        assert_eq!(size % 32, 0);
        assert!(size >= 32 && size <= 1024);
        if start + 32 <= image.len() {
            assert!(start + size <= image.len());
        }
    }
}

#[test]
fn slices_are_taken_by_offset_and_size() {
    let image = [1u8, 2, 3, 4, 5];
    assert_eq!(slice_of(&image, 1, 3), &[2, 3, 4]);
    assert_eq!(slice_of(&image, 0, 5), &image);
    assert_eq!(slice_of(&image, 5, 0), &[] as &[u8]);
}

#[test]
fn an_inferred_region_has_the_inferred_size_and_the_kind_of_its_window() {
    let mut image = vec![0x41u8; 64];
    image.extend_from_slice(&junk(64));
    let region = infer_region(&image, 0, None);
    assert_eq!(region.offset, 0);
    assert_eq!(region.size, 64);
    assert_eq!(region.name, "Discovered Data");
    assert_eq!(region.kind, RomRegionKind::Text);
    assert!(!region.required);
    assert!(region.value_map.is_none());
    assert_eq!(region.origin, RegionOrigin::Inferred);
    let region = infer_region(&image, 64, None);
    assert_eq!((region.offset, region.size, region.kind), (64, 64, RomRegionKind::PointerTable));
    let region = infer_region(&image, 126, None);
    assert_eq!((region.offset, region.size, region.kind), (126, 32, RomRegionKind::Unknown));
}

#[test]
fn region_starts_are_looked_up_by_exact_offset() {
    let regions = [region_at(0), region_at(16), region_at(16), region_at(40)];
    assert!(starts_region(&regions, 0));
    assert!(starts_region(&regions, 16));
    assert!(starts_region(&regions, 40));
    assert!(!starts_region(&regions, 1));
    assert!(!starts_region(&regions, 17));
    assert!(!starts_region(&[], 0));
}

#[test]
fn two_pointers_to_one_offset_give_one_region() {
    let image = vec![0x41u8; 256];
    let pointers = [pointer_to(0, 128), pointer_to(4, 128), pointer_to(8, 64), pointer_to(12, 128)];
    let mut found = Vec::new();
    discover(&image, None, &[], &pointers, &mut found);
    let offsets: Vec<usize> = found.iter().map(|r| r.offset).collect();
    assert_eq!(offsets, vec![128, 64]);
    assert_eq!(found[0].size, 128);
    assert_eq!(found[1].size, 192);
    for region in &found {
        assert_eq!(region.origin, RegionOrigin::Inferred);
        assert_eq!(region.kind, RomRegionKind::Text);
    }
}

#[test]
fn targets_at_known_regions_are_skipped() {
    let image = vec![0x41u8; 256];
    let known = [region_at(64)];
    let pointers = [pointer_to(0, 64), pointer_to(4, 96), pointer_to(8, 32)];
    let mut found = vec![region_at(32)];
    discover(&image, None, &known, &pointers, &mut found);
    let offsets: Vec<usize> = found.iter().map(|r| r.offset).collect();
    assert_eq!(offsets, vec![32, 96]);
    assert_eq!(found[0].name, "known");
    assert_eq!(found[1].name, "Discovered Data");
}

#[test]
fn discovery_without_pointers_changes_nothing() {
    let image = vec![0x41u8; 64];
    let mut found = vec![region_at(7)];
    discover(&image, None, &[], &[], &mut found);
    assert_eq!(found.len(), 1);
    assert_eq!(found[0].offset, 7);
}
