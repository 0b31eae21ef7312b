use telemetry_overlay::binary32::Binary32;
use telemetry_overlay::binary64::Binary64;
use telemetry_overlay::sampler::{next_action, Action, Event, CHANNEL_CAPACITY, RETRY_MS};
use telemetry_overlay::telemetry::{PAGE_NAME, PAGE_SIZE};
use telemetry_overlay::{Inputs, PhysicsPage, INFINITE, PERIOD_100NS, PERIOD_MS};

fn single(x: f32) -> Binary32 {
    Binary32 { bits: x.to_bits() }
}

fn double(x: f64) -> Binary64 {
    Binary64 { bits: x.to_bits() }
}

fn blob(packet_id: i32, throttle: f32, brake: f32) -> [u8; 12] {
    let mut bytes = [0u8; 12];
    bytes[0..4].copy_from_slice(&packet_id.to_le_bytes());
    bytes[4..8].copy_from_slice(&throttle.to_le_bytes());
    bytes[8..12].copy_from_slice(&brake.to_le_bytes());
    bytes
}

#[test]
fn fields_are_read_at_their_offsets() {
    let bytes = [1, 2, 3, 4, 0x00, 0x00, 0x80, 0x3f, 0x00, 0x00, 0x00, 0x3f];
    let page = PhysicsPage::from_bytes(&bytes);
    assert_eq!(page, PhysicsPage::new(0x0403_0201, single(1.0), single(0.5)));
    assert_eq!(bytes.len(), PAGE_SIZE);
    assert_eq!(PAGE_NAME, r"Local\acevo_pmf_physics");
}

#[test]
fn packet_ids_are_signed() {
    for id in [0, 1, -1, i32::MAX, i32::MIN, -12345] {
        assert_eq!(PhysicsPage::from_bytes(&blob(id, 0.25, 0.75)).packet_id, id);
    }
}

#[test]
fn every_byte_of_the_page_matters() {
    let bytes = blob(7, 0.3, 0.6);
    let page = PhysicsPage::from_bytes(&bytes);
    for i in 0..12 {
        let mut other = bytes;
        other[i] ^= 0x10;
        assert_ne!(PhysicsPage::from_bytes(&other), page);
    }
}

#[test]
fn inputs_are_percentages() {
    let inputs = Inputs::from(PhysicsPage::new(1, single(1.0), single(0.0)));
    assert_eq!(inputs.throttle(), double(100.0));
    assert_eq!(inputs.brake(), double(0.0));
    let inputs = Inputs::from(PhysicsPage::new(2, single(0.5), single(0.25)));
    assert_eq!(inputs, Inputs::new(double(50.0), double(25.0)));
}

#[test]
fn percentages_are_rounded_in_single_precision() {
    for x in [0.1f32, 0.2, 0.3, 0.55, 0.7, 0.999, 1.0e-40, 3.0e38, -0.5, -0.0] {
        let inputs = Inputs::from(PhysicsPage::new(0, single(x), single(-x)));
        assert_eq!(inputs.throttle(), double((x * 100.) as f64), "{x}");
        assert_eq!(inputs.brake(), double((-x * 100.) as f64), "{x}");
    }
    // The nearest single to 0.3 times 100 is not what double precision would give.
    assert_eq!(
        Inputs::from(PhysicsPage::new(0, single(0.3), single(0.0))).throttle(),
        double(30.000001907348633),
    );
}

#[test]
fn percentages_of_no_number_are_no_number() {
    let inputs = Inputs::from(PhysicsPage::new(0, single(f32::NAN), single(f32::INFINITY)));
    assert!(f64::from_bits(inputs.throttle().bits).is_nan());
    assert_eq!(inputs.brake(), double(f64::INFINITY));
}

#[test]
fn percentages_grow_with_the_input_and_stay_in_range() {
    let mut last = 0.0;
    for i in 0..=10_000 {
        let x = i as f32 / 10_000.0;
        let inputs = Inputs::from(PhysicsPage::new(0, single(x), single(x)));
        let percent = f64::from_bits(inputs.throttle().bits);
        assert!(last <= percent && percent <= 100.0);
        last = percent;
    }
    assert_eq!(last, 100.0);
}

#[test]
fn periods_agree() {
    assert_eq!(PERIOD_MS, 3);
    assert_eq!(PERIOD_100NS, -30_000);
    assert_eq!(-(PERIOD_100NS / 10_000) as u64, PERIOD_MS);
    assert_eq!(INFINITE, u32::MAX);
}

#[test]
fn sampling_retries_then_ticks_then_sends() {
    assert!(matches!(next_action(Event::OpenFailed), Action::OpenAfter(5000)));
    assert_eq!(RETRY_MS, 5000);
    assert!(matches!(next_action(Event::Opened), Action::StartTicking(PERIOD_MS)));
    match next_action(Event::Ticked(blob(9, 0.5, 1.0))) {
        Action::Send(inputs) => {
            assert_eq!(inputs, Inputs::new(double(50.0), double(100.0)));
        }
        other => panic!("{other:?}"),
    }
    assert!(matches!(next_action(Event::Sent), Action::WaitForTick));
    assert_eq!(CHANNEL_CAPACITY, 1000);
}
