use theos::enumeration::{EnumStage, EnumStep, Enumeration};
use theos::usb::CtxWrite;

/// Port 1 empty, port 2 connected and enabled at high speed.
fn ports() -> Vec<u32> {
    vec![0, 1 | 2 | (3 << 10)]
}

fn config_descriptor() -> Vec<u8> {
    let mut d = vec![9, 2, 32, 0, 1, 1, 0, 0x80, 50];
    d.extend_from_slice(&[9, 4, 0, 0, 2, 0x08, 0x06, 0x50, 0]);
    d.extend_from_slice(&[7, 5, 0x81, 2, 0x00, 0x02, 0]);
    d.extend_from_slice(&[7, 5, 0x02, 2, 0x00, 0x02, 0]);
    d
}

fn command(step: EnumStep) -> (Vec<CtxWrite>, u32) {
    match step {
        EnumStep::Command { writes, control } => (writes, control),
        other => panic!("expected a command, got {:?}", other),
    }
}

#[test]
fn enumeration_walks_to_a_configured_device() {
    let (mut e, step) = Enumeration::start(&ports());
    assert!(matches!(step, EnumStep::ResetPort { port: 2 }));
    assert_eq!(e.speed, 3);
    assert!(matches!(e.on_reset(true), EnumStep::EnableSlot));
    assert!(matches!(e.on_command(Some((1, 5 << 24))), EnumStep::SlotMemory { slot: 5 }));
    let (writes, control) = command(e.on_slot_memory(0x10000));
    assert_eq!(control, (11 << 10) | (5 << 24));
    assert_eq!(writes.len(), 7);
    assert_eq!(writes[1], CtxWrite { ctx: 1, dw: 0, val: (3 << 20) | (1 << 27) });
    assert_eq!(writes[2], CtxWrite { ctx: 1, dw: 1, val: 2 << 16 });
    assert_eq!(writes[3], CtxWrite { ctx: 2, dw: 1, val: (3 << 1) | (4 << 3) | (64 << 16) });
    assert_eq!(writes[4], CtxWrite { ctx: 2, dw: 2, val: 0x10001 });
    assert!(matches!(e.on_command(Some((1, 0))), EnumStep::GetDescriptor { dtype: 1, len: 8 }));
    let dev = [18u8, 1, 0, 2, 0, 0, 0, 64];
    assert!(matches!(e.on_descriptor(Some(1), &dev), EnumStep::GetDescriptor { dtype: 2, len: 9 }));
    let cfg = config_descriptor();
    assert!(matches!(e.on_descriptor(Some(1), &cfg[..9]), EnumStep::GetDescriptor { dtype: 2, len: 32 }));
    assert!(matches!(e.on_descriptor(Some(1), &cfg), EnumStep::SetConfiguration { value: 1 }));
    assert!(matches!(e.on_set_configuration(Some(1)), EnumStep::BulkRings));
    let (writes, control) = command(e.on_bulk_rings(0x20000, 0x30000));
    assert_eq!(control, (12 << 10) | (5 << 24));
    assert_eq!(writes.len(), 12);
    assert_eq!(writes[1], CtxWrite { ctx: 0, dw: 1, val: 1 | (1 << 3) | (1 << 4) });
    assert_eq!(writes[2], CtxWrite { ctx: 1, dw: 0, val: (3 << 20) | (4 << 27) });
    assert_eq!(writes[4], CtxWrite { ctx: 5, dw: 1, val: (3 << 1) | (2 << 3) | (512 << 16) });
    assert_eq!(writes[8], CtxWrite { ctx: 4, dw: 1, val: (3 << 1) | (6 << 3) | (512 << 16) });
    assert!(matches!(e.on_command(Some((1, 0))), EnumStep::Done { slot: 5, in_dci: 3, out_dci: 4 }));
    assert_eq!(e.stage, EnumStage::Done);
}

#[test]
fn enumeration_fails_without_a_port() {
    let (e, step) = Enumeration::start(&[0, 0x400]);
    assert!(matches!(step, EnumStep::Failed));
    assert_eq!(e.stage, EnumStage::Failed);
}

#[test]
fn enumeration_fails_on_a_bad_step() {
    let (mut e, _) = Enumeration::start(&ports());
    assert!(matches!(e.on_reset(false), EnumStep::Failed));

    let (mut e, _) = Enumeration::start(&ports());
    e.on_reset(true);
    assert!(matches!(e.on_command(Some((4, 5 << 24))), EnumStep::Failed));

    let (mut e, _) = Enumeration::start(&ports());
    e.on_reset(true);
    assert!(matches!(e.on_command(None), EnumStep::Failed));
}

#[test]
fn enumeration_updates_a_wrong_packet_size() {
    let (mut e, _) = Enumeration::start(&ports());
    e.on_reset(true);
    e.on_command(Some((1, 2 << 24)));
    e.on_slot_memory(0x10000);
    e.on_command(Some((1, 0)));
    let dev = [18u8, 1, 0, 2, 0, 0, 0, 8];
    let (writes, control) = command(e.on_descriptor(Some(1), &dev));
    assert_eq!(control, (13 << 10) | (2 << 24));
    assert_eq!(writes, vec![
        CtxWrite { ctx: 0, dw: 0, val: 0 },
        CtxWrite { ctx: 0, dw: 1, val: 2 },
        CtxWrite { ctx: 2, dw: 1, val: (3 << 1) | (4 << 3) | (8 << 16) },
    ]);
    // whatever Evaluate Context says, the configuration comes next
    assert!(matches!(e.on_command(None), EnumStep::GetDescriptor { dtype: 2, len: 9 }));
}

#[test]
fn enumeration_needs_both_bulk_endpoints() {
    let (mut e, _) = Enumeration::start(&ports());
    e.on_reset(true);
    e.on_command(Some((1, 1 << 24)));
    e.on_slot_memory(0);
    e.on_command(Some((1, 0)));
    e.on_descriptor(Some(1), &[18, 1, 0, 2, 0, 0, 0, 64]);
    let mut cfg = config_descriptor();
    cfg.truncate(25);
    cfg[2] = 25;
    e.on_descriptor(Some(1), &cfg[..9]);
    assert!(matches!(e.on_descriptor(Some(1), &cfg), EnumStep::Failed));
    // a descriptor fetch that does not complete fails too
    let (mut e, _) = Enumeration::start(&ports());
    e.on_reset(true);
    e.on_command(Some((1, 1 << 24)));
    e.on_slot_memory(0);
    e.on_command(Some((1, 0)));
    assert!(matches!(e.on_descriptor(Some(6), &[]), EnumStep::Failed));
}
