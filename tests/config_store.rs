use dutctl::config::{
    ConfigArea, ConfigAreaFlash, ConfigBlock, FlashRegion, BLOCK_SIZE, ERASED_MARKER, MAGIC,
    SLOT_COUNT, WritePlan,
};

fn named(name: &str) -> ConfigBlock {
    ConfigBlock::new().set_name(name.as_bytes())
}

fn text_of(field: &[u8]) -> &[u8] {
    let end = field.iter().position(|b| *b == 0).unwrap_or(field.len());
    &field[..end]
}

#[test]
fn new_record_is_blank_and_valid() {
    let b = ConfigBlock::new();
    assert!(b.is_valid());
    assert!(!b.format_error());
    assert!(b.name.iter().all(|x| *x == 0));
    assert!(b.json.iter().all(|x| *x == 0));
    assert_eq!(b.magic, MAGIC);
}

#[test]
fn setter_truncates_and_zero_pads() {
    let long = [b'x'; 100];
    let b = ConfigBlock::new().set_name(&long);
    assert_eq!(b.name, [b'x'; 64]);
    let b = b.set_name(b"abc");
    assert_eq!(&b.name[..3], b"abc");
    assert!(b.name[3..].iter().all(|x| *x == 0));
    let b = b.set_power_on(b"p1,bL,w5,bZ").set_tags(b"t").set_json(b"{}");
    assert_eq!(text_of(&b.power_on), b"p1,bL,w5,bZ");
    assert_eq!(text_of(&b.tags), b"t");
    assert_eq!(text_of(&b.json), b"{}");
    assert_eq!(&b.name[..3], b"abc");
    let b = b.set_usb_console(b"uefi").set_power_off(b"bL,w11,bZ").set_power_rescue(b"aL");
    assert_eq!(text_of(&b.usb_console), b"uefi");
    assert_eq!(text_of(&b.power_off), b"bL,w11,bZ");
    assert_eq!(text_of(&b.power_rescue), b"aL");
}

#[test]
fn markers_classify_records() {
    let erased = ConfigBlock::erased();
    assert!(!erased.is_valid());
    assert!(!erased.format_error());
    assert_eq!(erased.magic, ERASED_MARKER);
    let mut corrupt = ConfigBlock::new();
    corrupt.magic = 0x1234_5678;
    assert!(!corrupt.is_valid());
    assert!(corrupt.format_error());
}

#[test]
fn stored_form_layout_and_round_trip() {
    let b = named("unit-7").set_json(b"{\"a\":1}");
    let bytes = b.to_bytes();
    assert_eq!(bytes.len(), BLOCK_SIZE);
    assert_eq!(&bytes[0..6], b"unit-7");
    assert_eq!(&bytes[480..487], b"{\"a\":1}");
    assert_eq!(&bytes[1020..1024], &[0xef, 0xbe, 0x1d, 0x60]);
    let back = ConfigBlock::from_bytes(&bytes);
    assert_eq!(back.to_bytes(), bytes);
    assert_eq!(back.name, b.name);
    assert_eq!(back.magic, MAGIC);
    assert_eq!(ConfigBlock::erased().to_bytes(), vec![0xffu8; BLOCK_SIZE]);
}

#[test]
fn slots_valid_valid_erased_resolve_current_and_next() {
    let mut slots = vec![named("first"), named("second")];
    while slots.len() < SLOT_COUNT {
        slots.push(ConfigBlock::erased());
    }
    let image = ConfigAreaFlash::from_slots(slots);
    assert_eq!(image.get_current(), Some(1));
    assert_eq!(image.get_next(), Some(2));
    assert!(!image.format_error());
    assert!(image.valid_run_ok());
    assert_eq!(image.write_plan(), WritePlan { erase_first: false, slot: 2 });
    assert_eq!(text_of(&image.ram_config().name), b"second");
    assert_eq!(text_of(&image.get_config().unwrap().name), b"second");
}

#[test]
fn empty_and_full_images() {
    let empty = ConfigAreaFlash::erased();
    assert_eq!(empty.get_current(), None);
    assert_eq!(empty.get_next(), Some(0));
    assert!(empty.get_config().is_none());
    assert!(empty.ram_config().name.iter().all(|x| *x == 0));
    let full = ConfigAreaFlash::from_slots((0..SLOT_COUNT).map(|_| ConfigBlock::new()).collect());
    assert_eq!(full.get_current(), Some(15));
    assert_eq!(full.get_next(), None);
    assert_eq!(full.write_plan(), WritePlan { erase_first: true, slot: 0 });
}

#[test]
fn write_then_read_returns_record() {
    let mut area = ConfigArea::new(ConfigAreaFlash::erased()).0;
    assert!(area.get().name.iter().all(|x| *x == 0));
    let r = named("bench-3").set_tags(b"arm64,orin");
    assert_eq!(area.write_config(&r), Ok(()));
    let got = area.get();
    assert_eq!(got.to_bytes(), r.to_bytes());
    assert_eq!(text_of(&got.tags), b"arm64,orin");
    assert!(got.usb_console.iter().all(|x| *x == 0));
}

#[test]
fn seventeen_writes_erase_once() {
    let mut area = ConfigArea::new(ConfigAreaFlash::erased()).0;
    for i in 0..16 {
        let r = named(&format!("unit{}", i));
        assert_eq!(area.write_config(&r), Ok(()));
        assert_eq!(area.flash().erase_count(), 0);
    }
    assert_eq!(area.snapshot().get_next(), None);
    let last = named("unit16");
    assert_eq!(area.write_config(&last), Ok(()));
    assert_eq!(area.flash().erase_count(), 1);
    assert_eq!(text_of(&area.get().name), b"unit16");
    assert_eq!(area.snapshot().get_current(), Some(0));
    assert_eq!(area.snapshot().get_next(), Some(1));
}

#[test]
fn corrupt_region_is_erased_at_start() {
    let mut slots: Vec<ConfigBlock> = (0..SLOT_COUNT).map(|_| ConfigBlock::erased()).collect();
    slots[0] = named("kept?");
    let mut bad = ConfigBlock::new();
    bad.magic = 0xdead_0000;
    slots[3] = bad;
    let image = ConfigAreaFlash::from_slots(slots);
    assert!(image.format_error());
    let (area, erased) = ConfigArea::new(image);
    assert_eq!(erased, Ok(()));
    assert_eq!(area.flash().erase_count(), 1);
    assert_eq!(area.snapshot().get_current(), None);
    assert!(area.get().name.iter().all(|x| *x == 0));
}

#[test]
fn gap_between_valid_slots_is_kept_at_start() {
    let mut slots: Vec<ConfigBlock> = (0..SLOT_COUNT).map(|_| ConfigBlock::erased()).collect();
    slots[0] = named("a");
    slots[2] = named("b");
    let image = ConfigAreaFlash::from_slots(slots);
    assert!(!image.format_error());
    assert!(!image.valid_run_ok());
    let (area, erased) = ConfigArea::new(image);
    assert_eq!(erased, Ok(()));
    assert_eq!(area.flash().erase_count(), 0);
    assert_eq!(text_of(&area.get().name), b"b");
}

#[test]
fn resume_takes_region_as_it_is() {
    let mut slots: Vec<ConfigBlock> = (0..SLOT_COUNT).map(|_| ConfigBlock::erased()).collect();
    slots[0] = named("kept");
    slots[1].magic = 0;
    let area = ConfigArea::resume(ConfigAreaFlash::from_slots(slots));
    assert_eq!(area.flash().erase_count(), 0);
    assert_eq!(text_of(&area.get().name), b"kept");
}

#[test]
fn healthy_region_is_kept_at_start() {
    let mut slots: Vec<ConfigBlock> = (0..SLOT_COUNT).map(|_| ConfigBlock::erased()).collect();
    slots[0] = named("keep");
    let area = ConfigArea::new(ConfigAreaFlash::from_slots(slots)).0;
    assert_eq!(area.flash().erase_count(), 0);
    assert_eq!(text_of(&area.get().name), b"keep");
}

#[test]
fn failed_program_keeps_previous_record() {
    let mut slots: Vec<ConfigBlock> = (0..SLOT_COUNT).map(|_| ConfigBlock::erased()).collect();
    slots[0] = named("previous");
    let mut image = ConfigAreaFlash::from_slots(slots);
    image.set_program_fault(true);
    let mut area = ConfigArea::new(image).0;
    assert_eq!(area.write_config(&named("next")), Err(()));
    assert_eq!(text_of(&area.get().name), b"previous");
    assert!(area.snapshot().format_error());
    assert_eq!(area.snapshot().get_current(), Some(0));
}

#[test]
fn ram_region_reads_what_was_programmed() {
    let mut flash = ConfigAreaFlash::erased();
    let bytes = named("x").to_bytes();
    assert_eq!(flash.program_block(5, &bytes), Ok(()));
    assert_eq!(flash.read_block(5), bytes);
    assert_eq!(flash.read_block(4), vec![0xffu8; BLOCK_SIZE]);
    assert_eq!(flash.erase_region(), Ok(()));
    assert_eq!(flash.read_block(5), vec![0xffu8; BLOCK_SIZE]);
    assert_eq!(flash.erase_count(), 1);
    assert!(flash.slot(5).magic == ERASED_MARKER);
}
